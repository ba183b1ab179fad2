//! # Generating the instructions that the runtime executes
//!
//! The named functions that were added or updated are queued in the order of
//! the call graph, from its leaves; each is taken from the front of the queue,
//! where it was put last, so the function nearest the root is compiled first.
//! The anonymous functions that a function defines are put at the front too,
//! and are compiled right after it.
//!
//! A call to a user-defined function becomes a placeholder first, since the
//! called function might not be compiled yet. Once all functions are compiled,
//! each placeholder is replaced by the call, if its function was compiled.
//! Finally, calls to the old version of an updated function are redirected to
//! its new version; this is what makes changes to a running program possible.

use vstd::prelude::*;

use crate::call_graph::{Cluster, ClusterView, OrderedFunctions};
use crate::code::{
    anonymous_position, Expression, ExpressionView, Function, FunctionView, Functions,
    FunctionsView, Pattern, PatternView, Value,
};
use crate::hash::spec_hash;
use crate::instructions::{
    distinct_names, has_name, names_of, copy_branches, copy_instructions, copy_patterns, intrinsic_to_instruction, spec_intrinsic_to_instruction, Effect,
    Instruction, InstructionView, RuntimeBranch, RuntimeBranchView, RuntimeFunction,
};
use crate::location::{
    BranchIndex, BranchLocation, FragmentIndexInBranchBody, FragmentLocation, FunctionLocation,
};
use crate::passes::determine_tail_positions::last_non_comment;
use crate::passes::detect_changes::{Changes, ChangesView, FunctionUpdateView};
use crate::passes::resolve_non_recursive_functions::StableFunctions;

verus! {

/// # Where the function that a job compiles is found
#[derive(Clone, Copy, Debug)]
pub enum JobSource {
    /// # The function added at this position of the changes
    Added(usize),
    /// # The new version of the function updated at this position of the changes
    Updated(usize),
    /// # The anonymous function at this position
    Anonymous(usize),
}

/// # A function that waits to be compiled
#[derive(Clone, Copy, Debug)]
pub struct Job {
    pub source: JobSource,
    /// # The instruction that is to make the function, if it is anonymous
    pub placeholder: Option<usize>,
    /// # The position of the cluster that the function belongs to
    pub cluster: usize,
}

/// # An instruction that is to become a call, once its callee is compiled
#[derive(Clone, Copy, Debug)]
pub struct Placeholder {
    pub callee: crate::code::Hash,
    pub address: usize,
    pub is_tail_call: bool,
}

/// # The state of the generation of instructions
pub struct Generator {
    pub instructions: Vec<Instruction>,
    /// # The addresses of the calls to each function, by its hash
    pub calls: Vec<(crate::code::Hash, Vec<usize>)>,
    /// # The functions waiting to be compiled; the last one is next
    pub jobs: Vec<Job>,
    /// # Which anonymous functions, by position, have been queued
    pub marks: Vec<bool>,
    pub placeholders: Vec<Placeholder>,
    /// # The branches of the compiled functions, by hash
    pub compiled: Vec<(crate::code::Hash, Vec<RuntimeBranch>)>,
}

/// # The mathematical model of a [`Generator`]
pub ghost struct GeneratorView {
    pub instructions: Seq<InstructionView>,
    pub calls: Seq<(crate::code::Hash, Seq<usize>)>,
    pub jobs: Seq<Job>,
    pub marks: Seq<bool>,
    pub placeholders: Seq<Placeholder>,
    pub compiled: Seq<(crate::code::Hash, Seq<RuntimeBranchView>)>,
}

/// The model of a table of calls by hash
pub open spec fn calls_view(calls: Seq<(crate::code::Hash, Vec<usize>)>) -> Seq<(crate::code::Hash, Seq<usize>)> {
    calls.map_values(|entry: (crate::code::Hash, Vec<usize>)| (entry.0, entry.1@))
}

/// The model of a table of compiled functions by hash
pub open spec fn compiled_view(compiled: Seq<(crate::code::Hash, Vec<RuntimeBranch>)>) -> Seq<
    (crate::code::Hash, Seq<RuntimeBranchView>),
> {
    compiled.map_values(|entry: (crate::code::Hash, Vec<RuntimeBranch>)| (entry.0, entry.1.deep_view()))
}

impl View for Generator {
    type V = GeneratorView;

    open spec fn view(&self) -> GeneratorView {
        GeneratorView {
            instructions: self.instructions.deep_view(),
            calls: calls_view(self.calls@),
            jobs: self.jobs@,
            marks: self.marks@,
            placeholders: self.placeholders@,
            compiled: compiled_view(self.compiled@),
        }
    }
}

/// The hash of a function
pub open spec fn spec_hash_of(function: FunctionView) -> crate::code::Hash {
    crate::code::Hash { hash: spec_hash(function) }
}

/// The position of the first entry with `key`
pub open spec fn first_with_key<V>(entries: Seq<(crate::code::Hash, V)>, key: crate::code::Hash) -> Option<int>
    decreases entries.len(),
{
    if entries.len() == 0 {
        None
    } else if entries[0].0 == key {
        Some(0)
    } else {
        match first_with_key(entries.drop_first(), key) {
            Some(i) => Some(i + 1),
            None => None,
        }
    }
}

/// The position of the first occurrence of `location`
pub open spec fn first_location(locations: Seq<FunctionLocation>, location: FunctionLocation) -> Option<int>
    decreases locations.len(),
{
    if locations.len() == 0 {
        None
    } else if locations[0] == location {
        Some(0)
    } else {
        match first_location(locations.drop_first(), location) {
            Some(i) => Some(i + 1),
            None => None,
        }
    }
}

/// The function that a job compiles
pub open spec fn job_function(fs: FunctionsView, ch: ChangesView, source: JobSource) -> FunctionView {
    match source {
        JobSource::Added(i) => ch.added[i as int].1,
        JobSource::Updated(i) => ch.updated[i as int].new.function,
        JobSource::Anonymous(p) => fs.anonymous[p as int].function,
    }
}

/// The location of the function that a job compiles
pub open spec fn job_location(fs: FunctionsView, ch: ChangesView, source: JobSource) -> FunctionLocation {
    match source {
        JobSource::Added(i) => ch.added[i as int].0,
        JobSource::Updated(i) => ch.updated[i as int].new.location,
        JobSource::Anonymous(p) => FunctionLocation::AnonymousFunction {
            location: fs.anonymous[p as int].location,
        },
    }
}

/// Whether a job refers to a function and a cluster that exist
pub open spec fn job_is_valid(fs: FunctionsView, ch: ChangesView, cl: Seq<ClusterView>, job: Job) -> bool {
    &&& job.cluster < cl.len()
    &&& match job.source {
        JobSource::Added(i) => i < ch.added.len(),
        JobSource::Updated(i) => i < ch.updated.len(),
        JobSource::Anonymous(p) => p < fs.anonymous.len(),
    }
}

/// What holds of the state throughout the generation
pub open spec fn generator_inv(fs: FunctionsView, ch: ChangesView, cl: Seq<ClusterView>, st: GeneratorView) -> bool {
    &&& st.marks.len() == fs.anonymous.len()
    &&& forall|j: int| 0 <= j < st.jobs.len() ==> job_is_valid(fs, ch, cl, #[trigger] st.jobs[j])
}

/// `st`, with `instruction` added at the end
pub open spec fn push_instruction(st: GeneratorView, instruction: InstructionView) -> GeneratorView {
    GeneratorView { instructions: st.instructions.push(instruction), ..st }
}

/// `st`, with the instruction at `address` replaced, if there is one
pub open spec fn set_instruction(st: GeneratorView, address: int, instruction: InstructionView) -> GeneratorView {
    if 0 <= address < st.instructions.len() {
        GeneratorView { instructions: st.instructions.update(address, instruction), ..st }
    } else {
        st
    }
}

/// `calls`, with a call of `callee` at `address` recorded
pub open spec fn record_call(calls: Seq<(crate::code::Hash, Seq<usize>)>, callee: crate::code::Hash, address: usize) -> Seq<(crate::code::Hash, Seq<usize>)> {
    match first_with_key(calls, callee) {
        Some(i) => calls.update(i, (callee, calls[i].1.push(address))),
        None => calls.push((callee, seq![address])),
    }
}

/// `st`, with a placeholder for a call of `callee` added
pub open spec fn call_placeholder(st: GeneratorView, callee: crate::code::Hash, is_tail_call: bool) -> GeneratorView {
    let address = st.instructions.len() as usize;
    GeneratorView {
        instructions: st.instructions.push(InstructionView::TriggerEffect { effect: Effect::CompilerBug }),
        placeholders: st.placeholders.push(Placeholder { callee, address, is_tail_call }),
        calls: record_call(st.calls, callee, address),
        ..st
    }
}

/// `st`, with the anonymous function at `position` queued, unless it was
/// queued before
pub open spec fn queue_anonymous(st: GeneratorView, position: Option<int>, address: usize, cluster: usize) -> GeneratorView {
    match position {
        Some(p) => if 0 <= p < st.marks.len() && !st.marks[p] {
            GeneratorView {
                marks: st.marks.update(p, true),
                jobs: st.jobs.push(
                    Job { source: JobSource::Anonymous(p as usize), placeholder: Some(address), cluster },
                ),
                ..st
            }
        } else {
            st
        },
        None => st,
    }
}

/// The function that a recursive call refers to: the function at `index` in
/// the cluster at position `c`
pub open spec fn recursive_callee(
    fs: FunctionsView,
    cl: Seq<ClusterView>,
    c: int,
    index: crate::location::FunctionIndexInCluster,
) -> Option<FunctionView> {
    if (index.0 as int) < cl[c].functions.len() {
        fs.function_at(cl[c].functions[index.0 as int])
    } else {
        None
    }
}

/// Whether one of `parameters` binds `name`
pub open spec fn binds(parameters: Seq<PatternView>, name: Seq<char>) -> bool {
    exists|i: int| 0 <= i < parameters.len() && parameters[i] == (PatternView::Identifier { name })
}

/// Whether a branch that encloses the function at `location` binds `name`
///
/// An anonymous function sees the bindings of the branch that defines it, and
/// those that branch sees.
pub open spec fn bound_in_scope(fs: FunctionsView, location: FunctionLocation, name: Seq<char>) -> bool
    decreases location,
{
    match location {
        FunctionLocation::NamedFunction { .. } => false,
        FunctionLocation::AnonymousFunction { location: fragment } => {
            let branch = *fragment.parent;
            let parent = *branch.parent;
            (match fs.function_at(parent) {
                Some(f) => (branch.index.0 as int) < f.branches.len() && binds(
                    f.branches[branch.index.0 as int].parameters,
                    name,
                ),
                None => false,
            }) || bound_in_scope(fs, parent, name)
        },
    }
}

/// Whether the function at `inner` is the one at `outer`, or is defined
/// within it
pub open spec fn within(inner: FunctionLocation, outer: FunctionLocation) -> bool
    decreases inner,
{
    if inner == outer {
        true
    } else {
        match inner {
            FunctionLocation::NamedFunction { .. } => false,
            FunctionLocation::AnonymousFunction { location } => within(*location.parent.parent, outer),
        }
    }
}

/// Whether a branch on the way out from the function at `inner` to the one at
/// `outer` binds `name`: a branch that defines `inner`, or one that defines a
/// function that defines it, up to a branch of `outer`
pub open spec fn bound_between(fs: FunctionsView, inner: FunctionLocation, outer: FunctionLocation, name: Seq<char>) -> bool
    decreases inner,
{
    if inner == outer {
        false
    } else {
        match inner {
            FunctionLocation::NamedFunction { .. } => false,
            FunctionLocation::AnonymousFunction { location: fragment } => {
                let branch = *fragment.parent;
                let parent = *branch.parent;
                (match fs.function_at(parent) {
                    Some(f) => (branch.index.0 as int) < f.branches.len() && binds(
                        f.branches[branch.index.0 as int].parameters,
                        name,
                    ),
                    None => false,
                }) || bound_between(fs, parent, outer, name)
            },
        }
    }
}

/// Whether expression `k` of branch `b` of the anonymous function at position
/// `d`, which is the function at `outer` or is defined within it, uses `name`
/// as a binding from outside `outer`
pub open spec fn uses_from_outside(fs: FunctionsView, outer: FunctionLocation, d: int, b: int, k: int, name: Seq<char>) -> bool {
    let inner = FunctionLocation::AnonymousFunction { location: fs.anonymous[d].location };
    let branch = fs.anonymous[d].function.branches[b];
    &&& 0 <= d < fs.anonymous.len()
    &&& 0 <= b < fs.anonymous[d].function.branches.len()
    &&& 0 <= k < branch.body.len()
    &&& branch.body[k] matches ExpressionView::UnresolvedIdentifier { name: n, .. } && n == name
    &&& within(inner, outer)
    &&& !binds(branch.parameters, name)
    &&& !bound_between(fs, inner, outer, name)
    &&& bound_in_scope(fs, outer, name)
}

/// Whether one of the first `n` expressions of branch `b` of the anonymous
/// function at position `d` uses `name` from outside `outer`
pub open spec fn used_in_branch(fs: FunctionsView, outer: FunctionLocation, d: int, b: int, n: int, name: Seq<char>) -> bool {
    exists|k: int| 0 <= k < n && #[trigger] uses_from_outside(fs, outer, d, b, k, name)
}

/// Whether one of the first `n` branches of the anonymous function at position
/// `d` uses `name` from outside `outer`
pub open spec fn used_in_function(fs: FunctionsView, outer: FunctionLocation, d: int, n: int, name: Seq<char>) -> bool {
    exists|b: int|
        0 <= b < n && #[trigger] used_in_branch(
            fs,
            outer,
            d,
            b,
            fs.anonymous[d].function.branches[b].body.len() as int,
            name,
        )
}

/// Whether one of the first `n` anonymous functions uses `name` from outside
/// `outer`
pub open spec fn used_in_functions(fs: FunctionsView, outer: FunctionLocation, n: int, name: Seq<char>) -> bool {
    exists|d: int|
        0 <= d < n && #[trigger] used_in_function(
            fs,
            outer,
            d,
            fs.anonymous[d].function.branches.len() as int,
            name,
        )
}

/// The environment of the function at `outer`: the names that it, or a
/// function defined within it, uses as bindings from outside of it
pub open spec fn spec_environment(fs: FunctionsView, outer: FunctionLocation) -> Set<Seq<char>> {
    Set::new(|name: Seq<char>| used_in_functions(fs, outer, fs.anonymous.len() as int, name))
}

/// A named function captures nothing: no branch encloses it
pub proof fn named_functions_capture_nothing(fs: FunctionsView, location: FunctionLocation)
    requires
        location is NamedFunction,
    ensures
        spec_environment(fs, location) == Set::<Seq<char>>::empty(),
{
    assert(spec_environment(fs, location) =~= Set::<Seq<char>>::empty());
}

/// The location of expression `k` of branch `b` of the function at `location`
pub open spec fn expression_location(location: FunctionLocation, b: int, k: int) -> FragmentLocation {
    FragmentLocation {
        parent: Box::new(BranchLocation { parent: Box::new(location), index: BranchIndex(b as u32) }),
        index: FragmentIndexInBranchBody(k as u32),
    }
}

/// The state after compiling expression `k` of `body`, the body of branch `b`
/// of the function of `job`, and the address of the first instruction that it
/// generated
pub open spec fn compile_expression(
    fs: FunctionsView,
    ch: ChangesView,
    cl: Seq<ClusterView>,
    st: GeneratorView,
    job: Job,
    b: int,
    body: Seq<ExpressionView>,
    k: int,
) -> (GeneratorView, Option<usize>) {
    let at = st.instructions.len() as usize;
    match body[k] {
        ExpressionView::Comment { .. } => (st, None),
        ExpressionView::UnresolvedIdentifier { name, .. } => (
            push_instruction(
                st,
                if binds(job_function(fs, ch, job.source).branches[b].parameters, name) || bound_in_scope(
                    fs,
                    job_location(fs, ch, job.source),
                    name,
                ) {
                    InstructionView::BindingEvaluate { name }
                } else {
                    InstructionView::TriggerEffect { effect: Effect::BuildError }
                },
            ),
            Some(at),
        ),
        ExpressionView::UnresolvedLocalFunction | ExpressionView::LocalFunction { .. }
        | ExpressionView::LocalFunctionRecursive { .. } => {
            let location = expression_location(job_location(fs, ch, job.source), b, k);
            let with_placeholder = push_instruction(
                st,
                InstructionView::TriggerEffect { effect: Effect::CompilerBug },
            );
            (
                queue_anonymous(with_placeholder, anonymous_position(fs.anonymous, location), at, job.cluster),
                Some(at),
            )
        },
        ExpressionView::CallToHostFunction { number } => (
            push_instruction(
                push_instruction(st, InstructionView::Push { value: Value(number as i32) }),
                InstructionView::TriggerEffect { effect: Effect::Host },
            ),
            Some(at),
        ),
        ExpressionView::CallToIntrinsicFunction { intrinsic } => (
            push_instruction(
                st,
                spec_intrinsic_to_instruction(intrinsic, last_non_comment(body) == Some(k)),
            ),
            Some(at),
        ),
        ExpressionView::CallToUserDefinedFunction { hash, is_tail_call } => (
            call_placeholder(st, hash, is_tail_call),
            Some(at),
        ),
        ExpressionView::CallToUserDefinedFunctionRecursive { index, is_tail_call } => (
            match recursive_callee(fs, cl, job.cluster as int, index) {
                Some(f) => call_placeholder(st, spec_hash_of(f), is_tail_call),
                None => push_instruction(st, InstructionView::TriggerEffect { effect: Effect::CompilerBug }),
            },
            Some(at),
        ),
        ExpressionView::Value(value) => (push_instruction(st, InstructionView::Push { value }), Some(at)),
    }
}

/// The state after compiling the first `k` expressions of `body`, and the
/// address of the first instruction that they generated
pub open spec fn compile_body(
    fs: FunctionsView,
    ch: ChangesView,
    cl: Seq<ClusterView>,
    st: GeneratorView,
    job: Job,
    b: int,
    body: Seq<ExpressionView>,
    k: int,
) -> (GeneratorView, Option<usize>)
    decreases k,
{
    if k <= 0 {
        (st, None)
    } else {
        let (before, first) = compile_body(fs, ch, cl, st, job, b, body, k - 1);
        let (after, at) = compile_expression(fs, ch, cl, before, job, b, body, k - 1);
        (after, if first is Some { first } else { at })
    }
}

/// The state after binding the identifier parameters from position `i` on,
/// the last one first, and the address of the first binding
pub open spec fn bind_from(st: GeneratorView, parameters: Seq<PatternView>, i: int) -> (GeneratorView, Option<usize>)
    decreases parameters.len() - i,
{
    if i < 0 || i >= parameters.len() {
        (st, None)
    } else {
        let (before, first) = bind_from(st, parameters, i + 1);
        match parameters[i] {
            PatternView::Identifier { name } => (
                push_instruction(before, InstructionView::Bind { name }),
                if first is Some { first } else { Some(before.instructions.len() as usize) },
            ),
            PatternView::Literal { .. } => (before, first),
        }
    }
}

/// The state after compiling branch `b` of the function of `job`, and the
/// branch as the runtime knows it
pub open spec fn compile_branch(
    fs: FunctionsView,
    ch: ChangesView,
    cl: Seq<ClusterView>,
    st: GeneratorView,
    job: Job,
    b: int,
) -> (GeneratorView, RuntimeBranchView) {
    let branch = job_function(fs, ch, job.source).branches[b];
    let (bound, first_binding) = bind_from(st, branch.parameters, 0);
    let (compiled, first_in_body) = compile_body(fs, ch, cl, bound, job, b, branch.body, branch.body.len() as int);
    let at_return = compiled.instructions.len() as usize;
    let start = match first_binding {
        Some(a) => a,
        None => match first_in_body {
            Some(a) => a,
            None => at_return,
        },
    };
    (
        push_instruction(compiled, InstructionView::Return),
        RuntimeBranchView { parameters: branch.parameters, start },
    )
}

/// The state after compiling the first `n` branches of the function of `job`,
/// and those branches as the runtime knows them
pub open spec fn compile_branches(
    fs: FunctionsView,
    ch: ChangesView,
    cl: Seq<ClusterView>,
    st: GeneratorView,
    job: Job,
    n: int,
) -> (GeneratorView, Seq<RuntimeBranchView>)
    decreases n,
{
    if n <= 0 {
        (st, Seq::empty())
    } else {
        let (before, branches) = compile_branches(fs, ch, cl, st, job, n - 1);
        let (after, branch) = compile_branch(fs, ch, cl, before, job, n - 1);
        (after, branches.push(branch))
    }
}

/// `st`, with the compiled `branches` of the function with `hash` recorded
pub open spec fn record_compiled(st: GeneratorView, hash: crate::code::Hash, branches: Seq<RuntimeBranchView>) -> GeneratorView {
    if branches.len() == 0 {
        st
    } else {
        match first_with_key(st.compiled, hash) {
            Some(i) => GeneratorView {
                compiled: st.compiled.update(i, (hash, st.compiled[i].1 + branches)),
                ..st
            },
            None => GeneratorView { compiled: st.compiled.push((hash, branches)), ..st },
        }
    }
}

/// The state after compiling the function of `job`
pub open spec fn compile_function(
    fs: FunctionsView,
    ch: ChangesView,
    cl: Seq<ClusterView>,
    st: GeneratorView,
    job: Job,
) -> GeneratorView {
    let function = job_function(fs, ch, job.source);
    let (compiled, branches) = compile_branches(fs, ch, cl, st, job, function.branches.len() as int);
    let recorded = record_compiled(compiled, spec_hash_of(function), branches);
    match job.placeholder {
        Some(a) => set_instruction(
            recorded,
            a as int,
            InstructionView::MakeAnonymousFunction {
                branches,
                environment: spec_environment(fs, job_location(fs, ch, job.source)),
            },
        ),
        None => recorded,
    }
}

/// The number of anonymous functions that have not been queued
pub open spec fn count_unmarked(marks: Seq<bool>) -> nat
    decreases marks.len(),
{
    if marks.len() == 0 {
        0
    } else {
        count_unmarked(marks.drop_last()) + if marks.last() {
            0nat
        } else {
            1nat
        }
    }
}

/// Whether `after` queued as many jobs as it marked anonymous functions
pub open spec fn measure_kept(before: GeneratorView, after: GeneratorView) -> bool {
    &&& after.marks.len() == before.marks.len()
    &&& count_unmarked(after.marks) <= count_unmarked(before.marks)
    &&& count_unmarked(after.marks) + after.jobs.len() == count_unmarked(before.marks) + before.jobs.len()
}

proof fn lemma_mark(marks: Seq<bool>, p: int)
    requires
        0 <= p < marks.len(),
        !marks[p],
    ensures
        count_unmarked(marks.update(p, true)) + 1 == count_unmarked(marks),
    decreases marks.len(),
{
    if p == marks.len() - 1 {
        assert(marks.update(p, true).drop_last() =~= marks.drop_last());
    } else {
        assert(marks.update(p, true).drop_last() =~= marks.drop_last().update(p, true));
        lemma_mark(marks.drop_last(), p);
    }
}

proof fn lemma_expression_measure(
    fs: FunctionsView,
    ch: ChangesView,
    cl: Seq<ClusterView>,
    st: GeneratorView,
    job: Job,
    b: int,
    body: Seq<ExpressionView>,
    k: int,
)
    ensures
        measure_kept(st, compile_expression(fs, ch, cl, st, job, b, body, k).0),
{
    let at = st.instructions.len() as usize;
    match body[k] {
        ExpressionView::UnresolvedLocalFunction | ExpressionView::LocalFunction { .. }
        | ExpressionView::LocalFunctionRecursive { .. } => {
            let location = expression_location(job_location(fs, ch, job.source), b, k);
            let with_placeholder = push_instruction(
                st,
                InstructionView::TriggerEffect { effect: Effect::CompilerBug },
            );
            match anonymous_position(fs.anonymous, location) {
                Some(p) => if 0 <= p < with_placeholder.marks.len() && !with_placeholder.marks[p] {
                    lemma_mark(st.marks, p);
                },
                None => {},
            }
        },
        _ => {},
    }
}

proof fn lemma_body_measure(
    fs: FunctionsView,
    ch: ChangesView,
    cl: Seq<ClusterView>,
    st: GeneratorView,
    job: Job,
    b: int,
    body: Seq<ExpressionView>,
    k: int,
)
    ensures
        measure_kept(st, compile_body(fs, ch, cl, st, job, b, body, k).0),
    decreases k,
{
    if k > 0 {
        lemma_body_measure(fs, ch, cl, st, job, b, body, k - 1);
        let before = compile_body(fs, ch, cl, st, job, b, body, k - 1).0;
        lemma_expression_measure(fs, ch, cl, before, job, b, body, k - 1);
    }
}

proof fn lemma_bind_keeps_jobs(st: GeneratorView, parameters: Seq<PatternView>, i: int)
    ensures
        bind_from(st, parameters, i).0.jobs == st.jobs,
        bind_from(st, parameters, i).0.marks == st.marks,
    decreases parameters.len() - i,
{
    if 0 <= i < parameters.len() {
        lemma_bind_keeps_jobs(st, parameters, i + 1);
    }
}

proof fn lemma_branches_measure(
    fs: FunctionsView,
    ch: ChangesView,
    cl: Seq<ClusterView>,
    st: GeneratorView,
    job: Job,
    n: int,
)
    ensures
        measure_kept(st, compile_branches(fs, ch, cl, st, job, n).0),
    decreases n,
{
    if n > 0 {
        lemma_branches_measure(fs, ch, cl, st, job, n - 1);
        let before = compile_branches(fs, ch, cl, st, job, n - 1).0;
        let branch = job_function(fs, ch, job.source).branches[n - 1];
        lemma_bind_keeps_jobs(before, branch.parameters, 0);
        let bound = bind_from(before, branch.parameters, 0).0;
        lemma_body_measure(fs, ch, cl, bound, job, n - 1, branch.body, branch.body.len() as int);
    }
}

/// Compiling a function queues as many jobs as it marks anonymous functions
pub proof fn lemma_function_measure(
    fs: FunctionsView,
    ch: ChangesView,
    cl: Seq<ClusterView>,
    st: GeneratorView,
    job: Job,
)
    ensures
        measure_kept(st, compile_function(fs, ch, cl, st, job)),
{
    let function = job_function(fs, ch, job.source);
    lemma_branches_measure(fs, ch, cl, st, job, function.branches.len() as int);
}

/// The state after compiling the waiting functions, and the functions that
/// they queue, until none waits
pub open spec fn run_jobs(fs: FunctionsView, ch: ChangesView, cl: Seq<ClusterView>, st: GeneratorView) -> GeneratorView
    decreases count_unmarked(st.marks), st.jobs.len(),
{
    if st.jobs.len() == 0 {
        st
    } else {
        let job = st.jobs.last();
        let popped = GeneratorView { jobs: st.jobs.drop_last(), ..st };
        proof {
            lemma_function_measure(fs, ch, cl, popped, job);
        }
        run_jobs(fs, ch, cl, compile_function(fs, ch, cl, popped, job))
    }
}

/// The job for the named function at `location`, if it was added or updated
pub open spec fn new_or_updated(ch: ChangesView, location: FunctionLocation) -> Option<JobSource> {
    match first_location(ch.added.map_values(|e: (FunctionLocation, FunctionView)| e.0), location) {
        Some(i) => Some(JobSource::Added(i as usize)),
        None => match first_location(
            ch.updated.map_values(|u: FunctionUpdateView| u.new.location),
            location,
        ) {
            Some(i) => Some(JobSource::Updated(i as usize)),
            None => None,
        },
    }
}

/// The jobs for the first `k` functions of the cluster at position `c`
pub open spec fn cluster_seeds(ch: ChangesView, c: int, functions: Seq<FunctionLocation>, k: int) -> Seq<Job>
    decreases k,
{
    if k <= 0 {
        Seq::empty()
    } else {
        cluster_seeds(ch, c, functions, k - 1) + match new_or_updated(ch, functions[k - 1]) {
            Some(source) => seq![Job { source, placeholder: None, cluster: c as usize }],
            None => Seq::empty(),
        }
    }
}

/// The jobs for the functions of the first `n` clusters that were added or
/// updated, in the order of the clusters
pub open spec fn all_seeds(ch: ChangesView, cl: Seq<ClusterView>, n: int) -> Seq<Job>
    decreases n,
{
    if n <= 0 {
        Seq::empty()
    } else {
        all_seeds(ch, cl, n - 1) + cluster_seeds(ch, n - 1, cl[n - 1].functions, cl[n - 1].functions.len() as int)
    }
}

/// `st`, with the instruction at `address` replaced by a call of the compiled
/// function with `callee`'s hash, if there is one
pub open spec fn resolve_call(st: GeneratorView, callee: crate::code::Hash, address: int, is_tail_call: bool) -> GeneratorView {
    match first_with_key(st.compiled, callee) {
        Some(i) => set_instruction(
            st,
            address,
            InstructionView::CallFunction { function: st.compiled[i].1, is_tail_call },
        ),
        None => st,
    }
}

/// `st`, with the first `n` placeholders of `placeholders` resolved
pub open spec fn resolve_placeholders(st: GeneratorView, placeholders: Seq<Placeholder>, n: int) -> GeneratorView
    decreases n,
{
    if n <= 0 {
        st
    } else {
        let before = resolve_placeholders(st, placeholders, n - 1);
        resolve_call(
            before,
            placeholders[n - 1].callee,
            placeholders[n - 1].address as int,
            placeholders[n - 1].is_tail_call,
        )
    }
}

/// `st`, with the call at `address`, if there is one, redirected to the
/// compiled function with `callee`'s hash
pub open spec fn redirect_call(st: GeneratorView, address: int, callee: crate::code::Hash) -> GeneratorView {
    if 0 <= address < st.instructions.len() {
        match st.instructions[address] {
            InstructionView::CallFunction { is_tail_call, .. } => resolve_call(st, callee, address, is_tail_call),
            _ => st,
        }
    } else {
        st
    }
}

/// `st`, with the calls at the first `n` of `addresses` redirected
pub open spec fn redirect_calls(st: GeneratorView, addresses: Seq<usize>, callee: crate::code::Hash, n: int) -> GeneratorView
    decreases n,
{
    if n <= 0 {
        st
    } else {
        redirect_call(redirect_calls(st, addresses, callee, n - 1), addresses[n - 1] as int, callee)
    }
}

/// `st`, with the recorded calls of the function with `old_hash` redirected to
/// the function with `new_hash`, and no longer recorded
pub open spec fn redirect_update(st: GeneratorView, old_hash: crate::code::Hash, new_hash: crate::code::Hash) -> GeneratorView {
    match first_with_key(st.calls, old_hash) {
        Some(i) => {
            let addresses = st.calls[i].1;
            let removed = GeneratorView { calls: st.calls.remove(i), ..st };
            redirect_calls(removed, addresses, new_hash, addresses.len() as int)
        },
        None => st,
    }
}

/// `st`, with the calls of the first `n` updated functions redirected
pub open spec fn redirect_updates(st: GeneratorView, updates: Seq<FunctionUpdateView>, n: int) -> GeneratorView
    decreases n,
{
    if n <= 0 {
        st
    } else {
        redirect_update(
            redirect_updates(st, updates, n - 1),
            spec_hash_of(updates[n - 1].old.function),
            spec_hash_of(updates[n - 1].new.function),
        )
    }
}

/// The instructions and the table of calls after compiling the changes
///
/// A call to `main` comes first, at the end of the existing instructions: a
/// placeholder that triggers a build error, unless `main` is compiled. Then the
/// added and updated named functions are compiled in the reverse of the order
/// of the call graph, so the function nearest the root comes first, each
/// followed by the anonymous functions that it defines, the last one first. Each branch starts with the bindings of its
/// identifier parameters, the last one first, and ends with a return.
/// A function literal becomes the instruction that makes the anonymous
/// function, with its branches and its environment. Calls become placeholders,
/// which are replaced by calls of the compiled functions at the end. Last, the recorded calls to the old version of each
/// updated function are redirected to its new version.
pub open spec fn spec_generate_instructions(
    fs: FunctionsView,
    ch: ChangesView,
    cl: Seq<ClusterView>,
    instructions: Seq<InstructionView>,
    calls: Seq<(crate::code::Hash, Seq<usize>)>,
) -> (Seq<InstructionView>, Seq<(crate::code::Hash, Seq<usize>)>) {
    let resolved = resolved_generation(fs, ch, cl, instructions, calls);
    let redirected = redirect_updates(resolved, ch.updated, ch.updated.len() as int);
    (redirected.instructions, redirected.calls)
}

/// The state once all functions are compiled and the placeholders resolved,
/// before the calls of updated functions are redirected
pub open spec fn resolved_generation(
    fs: FunctionsView,
    ch: ChangesView,
    cl: Seq<ClusterView>,
    instructions: Seq<InstructionView>,
    calls: Seq<(crate::code::Hash, Seq<usize>)>,
) -> GeneratorView {
    let main_address = instructions.len() as int;
    let start = start_of_generation(fs, ch, cl, instructions, calls);
    let compiled = run_jobs(fs, ch, cl, start);
    let with_main = match fs.named_position("main"@) {
        Some(i) => resolve_call(compiled, spec_hash_of(fs.named[i].inner), main_address, true),
        None => compiled,
    };
    resolve_placeholders(with_main, compiled.placeholders, compiled.placeholders.len() as int)
}

/// Whether the recorded calls of the function with `old_hash` can be
/// redirected to the function with `new_hash`: each of them is a call
/// instruction, and the function with `new_hash` was compiled
#[verifier::opaque]
pub open spec fn update_possible(st: GeneratorView, old_hash: crate::code::Hash, new_hash: crate::code::Hash) -> bool {
    match first_with_key(st.calls, old_hash) {
        Some(i) => calls_redirectable(st, st.calls[i].1, new_hash),
        None => true,
    }
}

/// Whether the instruction at each of `addresses` is a call, and the function
/// with `new_hash` is compiled
pub open spec fn calls_redirectable(st: GeneratorView, addresses: Seq<usize>, new_hash: crate::code::Hash) -> bool {
    forall|m: int| 0 <= m < addresses.len() ==> #[trigger] call_redirectable(st, addresses[m], new_hash)
}

/// Whether the instruction at `address` is a call, and the function with
/// `new_hash` is compiled
pub open spec fn call_redirectable(st: GeneratorView, address: usize, new_hash: crate::code::Hash) -> bool {
    &&& address < st.instructions.len()
    &&& st.instructions[address as int] is CallFunction
    &&& first_with_key(st.compiled, new_hash) is Some
}

/// Whether the calls of the first `n` updated functions can be redirected,
/// one update after the other
#[verifier::opaque]
pub open spec fn updates_possible(st: GeneratorView, updates: Seq<FunctionUpdateView>, n: int) -> bool
    decreases n,
{
    n <= 0 || (updates_possible(st, updates, n - 1) && update_possible(
        redirect_updates(st, updates, n - 1),
        spec_hash_of(updates[n - 1].old.function),
        spec_hash_of(updates[n - 1].new.function),
    ))
}

/// Whether generating instructions can redirect the calls of every updated
/// function
pub open spec fn spec_can_redirect(
    fs: FunctionsView,
    ch: ChangesView,
    cl: Seq<ClusterView>,
    instructions: Seq<InstructionView>,
    calls: Seq<(crate::code::Hash, Seq<usize>)>,
) -> bool {
    updates_possible(
        resolved_generation(fs, ch, cl, instructions, calls),
        ch.updated,
        ch.updated.len() as int,
    )
}

proof fn lemma_first_with_key<V>(entries: Seq<(crate::code::Hash, V)>, key: crate::code::Hash, i: int)
    requires
        0 <= i <= entries.len(),
        forall|j: int| 0 <= j < i ==> (#[trigger] entries[j]).0 != key,
        i < entries.len() ==> entries[i].0 == key,
    ensures
        first_with_key(entries, key) == if i < entries.len() {
            Some(i)
        } else {
            None::<int>
        },
    decreases i,
{
    if entries.len() > 0 && i > 0 {
        assert(entries[0].0 != key);
        assert forall|j: int| 0 <= j < i - 1 implies (#[trigger] entries.drop_first()[j]).0 != key by {
            assert(entries.drop_first()[j] == entries[j + 1]);
        }
        lemma_first_with_key(entries.drop_first(), key, i - 1);
    }
}

proof fn lemma_first_location(locations: Seq<FunctionLocation>, location: FunctionLocation, i: int)
    requires
        0 <= i <= locations.len(),
        forall|j: int| 0 <= j < i ==> #[trigger] locations[j] != location,
        i < locations.len() ==> locations[i] == location,
    ensures
        first_location(locations, location) == if i < locations.len() {
            Some(i)
        } else {
            None::<int>
        },
    decreases i,
{
    if locations.len() > 0 && i > 0 {
        assert(locations[0] != location);
        assert forall|j: int| 0 <= j < i - 1 implies #[trigger] locations.drop_first()[j] != location by {
            assert(locations.drop_first()[j] == locations[j + 1]);
        }
        lemma_first_location(locations.drop_first(), location, i - 1);
    }
}

/// # Find the first entry with `key`
fn find_key<V>(entries: &Vec<(crate::code::Hash, V)>, key: &crate::code::Hash) -> (r: Option<usize>)
    ensures
        r matches Some(i) ==> i < entries.len() && entries@[i as int].0 == *key && forall|j: int|
            0 <= j < i ==> (#[trigger] entries@[j]).0 != *key,
        r is None ==> forall|j: int| 0 <= j < entries.len() ==> (#[trigger] entries@[j]).0 != *key,
{
    let mut i: usize = 0;
    while i < entries.len()
        invariant
            i <= entries.len(),
            forall|j: int| 0 <= j < i ==> (#[trigger] entries@[j]).0 != *key,
        decreases entries.len() - i,
    {
        if crate::passes::infer_types::same_hash(&entries[i].0, key) {
            return Some(i);
        }
        i = i + 1;
    }
    None
}

/// # The address of the last expression of `body` that is not a comment
fn last_non_comment_position(body: &Vec<Expression>) -> (r: Option<usize>)
    ensures
        match last_non_comment(body.deep_view()) {
            Some(t) => r == Some(t as usize) && 0 <= t < body.len(),
            None => r is None,
        },
{
    let ghost b = body.deep_view();
    let mut i = body.len();
    while i > 0
        invariant
            i <= body.len(),
            b == body.deep_view(),
            forall|j: int| i <= j < b.len() ==> #[trigger] b[j] is Comment,
        decreases i,
    {
        if let Expression::Comment { .. } = &body[i - 1] {
            i = i - 1;
        } else {
            proof {
                crate::passes::determine_tail_positions::lemma_last_non_comment(b, i as int);
                assert(b.take(i as int).drop_last() =~= b.take(i - 1));
                assert(b.take(i as int).last() == b[i - 1]);
            }
            return Some(i - 1);
        }
    }
    proof {
        crate::passes::determine_tail_positions::lemma_last_non_comment(b, 0);
    }
    None
}

/// # Whether one of `parameters` binds `name`
fn has_identifier(parameters: &Vec<Pattern>, name: &String) -> (r: bool)
    ensures
        r == binds(parameters.deep_view(), name@),
{
    let ghost ps = parameters.deep_view();
    let mut i: usize = 0;
    while i < parameters.len()
        invariant
            i <= parameters.len(),
            ps == parameters.deep_view(),
            forall|j: int| 0 <= j < i ==> ps[j] != (PatternView::Identifier { name: name@ }),
        decreases parameters.len() - i,
    {
        assert(ps[i as int] == parameters@[i as int].deep_view());
        if let Pattern::Identifier { name: n } = &parameters[i] {
            if crate::intrinsics::str_eq(n.as_str(), name.as_str()) {
                assert(ps[i as int] == (PatternView::Identifier { name: name@ }));
                return true;
            }
        }
        i = i + 1;
    }
    false
}

/// # Whether a branch that encloses the function at `location` binds `name`
fn is_bound_in_scope(functions: &Functions, location: &FunctionLocation, name: &String) -> (r: bool)
    ensures
        r == bound_in_scope(functions.deep_view(), *location, name@),
    decreases location,
{
    match location {
        FunctionLocation::NamedFunction { .. } => false,
        FunctionLocation::AnonymousFunction { location: fragment } => {
            let branch = &*fragment.parent;
            let parent = &*branch.parent;
            let here = match functions.by_location(parent) {
                Some(f) => {
                    let b = branch.index.0 as usize;
                    if b < f.branches.len() {
                        assert(f.deep_view().branches[b as int] == f.branches@[b as int].deep_view());
                        has_identifier(&f.branches[b].parameters, name)
                    } else {
                        false
                    }
                },
                None => false,
            };
            if here {
                true
            } else {
                is_bound_in_scope(functions, parent, name)
            }
        },
    }
}

/// # Whether the function at `inner` is the one at `outer`, or is defined
/// within it
fn is_within(inner: &FunctionLocation, outer: &FunctionLocation) -> (r: bool)
    ensures
        r == within(*inner, *outer),
    decreases inner,
{
    if inner.same_as(outer) {
        true
    } else {
        match inner {
            FunctionLocation::NamedFunction { .. } => false,
            FunctionLocation::AnonymousFunction { location } => is_within(&location.parent.parent, outer),
        }
    }
}

/// # Whether a branch on the way out from `inner` to `outer` binds `name`
fn is_bound_between(functions: &Functions, inner: &FunctionLocation, outer: &FunctionLocation, name: &String) -> (r: bool)
    ensures
        r == bound_between(functions.deep_view(), *inner, *outer, name@),
    decreases inner,
{
    if inner.same_as(outer) {
        return false;
    }
    match inner {
        FunctionLocation::NamedFunction { .. } => false,
        FunctionLocation::AnonymousFunction { location: fragment } => {
            let branch = &*fragment.parent;
            let parent = &*branch.parent;
            let here = match functions.by_location(parent) {
                Some(f) => {
                    let b = branch.index.0 as usize;
                    if b < f.branches.len() {
                        assert(f.deep_view().branches[b as int] == f.branches@[b as int].deep_view());
                        has_identifier(&f.branches[b].parameters, name)
                    } else {
                        false
                    }
                },
                None => false,
            };
            if here {
                true
            } else {
                is_bound_between(functions, parent, outer, name)
            }
        },
    }
}

/// # Whether `name` is one of `names`
fn contains_name(names: &Vec<String>, name: &String) -> (r: bool)
    ensures
        r == has_name(names@, name@),
{
    let mut i: usize = 0;
    while i < names.len()
        invariant
            i <= names.len(),
            forall|j: int| 0 <= j < i ==> (#[trigger] names@[j])@ != name@,
        decreases names.len() - i,
    {
        if crate::intrinsics::str_eq(names[i].as_str(), name.as_str()) {
            return true;
        }
        i = i + 1;
    }
    false
}

/// # Add the names that branch `b` of the anonymous function at position `d`
/// uses from outside `outer`
fn collect_from_branch(functions: &Functions, outer: &FunctionLocation, d: usize, b: usize, names: &mut Vec<String>)
    requires
        d < functions.anonymous.len(),
        b < functions.anonymous@[d as int].function.branches.len(),
        distinct_names(old(names)@),
    ensures
        distinct_names(final(names)@),
        forall|name: Seq<char>|
            #[trigger] has_name(final(names)@, name) == (has_name(old(names)@, name) || used_in_branch(
                functions.deep_view(),
                *outer,
                d as int,
                b as int,
                functions.deep_view().anonymous[d as int].function.branches[b as int].body.len() as int,
                name,
            )),
{
    let ghost fs = functions.deep_view();
    let anonymous = &functions.anonymous[d];
    let inner = FunctionLocation::AnonymousFunction { location: anonymous.location.copied() };
    let branch = &anonymous.function.branches[b];
    assert(fs.anonymous[d as int].function.branches[b as int] == branch.deep_view());
    let ghost body = branch.body.deep_view();
    let inside = is_within(&inner, outer);
    let mut k: usize = 0;
    while k < branch.body.len()
        invariant
            k <= branch.body.len(),
            body == branch.body.deep_view(),
            fs == functions.deep_view(),
            d < fs.anonymous.len(),
            b < fs.anonymous[d as int].function.branches.len(),
            body == fs.anonymous[d as int].function.branches[b as int].body,
            branch.parameters.deep_view() == fs.anonymous[d as int].function.branches[b as int].parameters,
            inner == (FunctionLocation::AnonymousFunction { location: fs.anonymous[d as int].location }),
            inside == within(inner, *outer),
            distinct_names(names@),
            forall|name: Seq<char>|
                #[trigger] has_name(names@, name) == (has_name(old(names)@, name) || used_in_branch(
                    fs,
                    *outer,
                    d as int,
                    b as int,
                    k as int,
                    name,
                )),
        decreases branch.body.len() - k,
    {
        assert(body[k as int] == branch.body@[k as int].deep_view());
        let ghost before = names@;
        let mut added = false;
        if let Expression::UnresolvedIdentifier { name, .. } = &branch.body[k] {
            if inside && !has_identifier(&branch.parameters, name) && !is_bound_between(functions, &inner, outer, name)
                && is_bound_in_scope(functions, outer, name) && !contains_name(names, name) {
                names.push(name.clone());
                added = true;
            }
        }
        proof {
            assert forall|name: Seq<char>|
                #[trigger] has_name(names@, name) == (has_name(old(names)@, name) || used_in_branch(
                    fs,
                    *outer,
                    d as int,
                    b as int,
                    k + 1,
                    name,
                )) by {
                if used_in_branch(fs, *outer, d as int, b as int, k + 1, name) {
                    let w = choose|w: int| 0 <= w < k + 1 && #[trigger] uses_from_outside(fs, *outer, d as int, b as int, w, name);
                    if w < k {
                        assert(used_in_branch(fs, *outer, d as int, b as int, k as int, name));
                    }
                }
                if used_in_branch(fs, *outer, d as int, b as int, k as int, name) {
                    let w = choose|w: int| 0 <= w < k && #[trigger] uses_from_outside(fs, *outer, d as int, b as int, w, name);
                    assert(0 <= w < k + 1 && uses_from_outside(fs, *outer, d as int, b as int, w, name));
                }
                if uses_from_outside(fs, *outer, d as int, b as int, k as int, name) {
                    assert(used_in_branch(fs, *outer, d as int, b as int, k + 1, name));
                }
                if has_name(names@, name) && !has_name(before, name) {
                    let i = choose|i: int| 0 <= i < names@.len() && (#[trigger] names@[i])@ == name;
                    if i < before.len() {
                        assert(before[i] == names@[i]);
                    }
                }
                if has_name(before, name) {
                    let i = choose|i: int| 0 <= i < before.len() && (#[trigger] before[i])@ == name;
                    assert(names@[i] == before[i]);
                }
                if added {
                    assert(names@[before.len() as int]@ == name ==> has_name(names@, name));
                }
            }
            assert forall|i: int, j: int| 0 <= i < j < names@.len() implies (#[trigger] names@[i])@ != (
            #[trigger] names@[j])@ by {
                if j == before.len() {
                    assert(names@[i] == before[i]);
                    assert(!has_name(before, names@[j]@));
                } else {
                    assert(names@[i] == before[i]);
                    assert(names@[j] == before[j]);
                }
            }
        }
        k = k + 1;
    }
}

/// # The environment of the function at `outer`, without repetitions
fn environment_of(functions: &Functions, outer: &FunctionLocation) -> (r: Vec<String>)
    ensures
        names_of(r@) == spec_environment(functions.deep_view(), *outer),
        distinct_names(r@),
{
    let ghost fs = functions.deep_view();
    let mut names: Vec<String> = Vec::new();
    let mut d: usize = 0;
    while d < functions.anonymous.len()
        invariant
            d <= functions.anonymous.len(),
            fs == functions.deep_view(),
            distinct_names(names@),
            forall|name: Seq<char>| #[trigger] has_name(names@, name) == used_in_functions(fs, *outer, d as int, name),
        decreases functions.anonymous.len() - d,
    {
        let ghost at_function = names@;
        let mut b: usize = 0;
        while b < functions.anonymous[d].function.branches.len()
            invariant
                d < functions.anonymous.len(),
                b <= functions.anonymous@[d as int].function.branches.len(),
                fs == functions.deep_view(),
                distinct_names(names@),
                forall|name: Seq<char>|
                    #[trigger] has_name(names@, name) == (has_name(at_function, name) || used_in_function(
                        fs,
                        *outer,
                        d as int,
                        b as int,
                        name,
                    )),
            decreases functions.anonymous@[d as int].function.branches.len() - b,
        {
            let ghost at_branch = names@;
            collect_from_branch(functions, outer, d, b, &mut names);
            proof {
                assert forall|name: Seq<char>|
                    #[trigger] has_name(names@, name) == (has_name(at_function, name) || used_in_function(
                        fs,
                        *outer,
                        d as int,
                        b + 1,
                        name,
                    )) by {
                    let n = fs.anonymous[d as int].function.branches[b as int].body.len() as int;
                    if used_in_function(fs, *outer, d as int, b + 1, name) {
                        let w = choose|w: int|
                            0 <= w < b + 1 && #[trigger] used_in_branch(
                                fs,
                                *outer,
                                d as int,
                                w,
                                fs.anonymous[d as int].function.branches[w].body.len() as int,
                                name,
                            );
                        if w < b {
                            assert(used_in_function(fs, *outer, d as int, b as int, name));
                        }
                    }
                    if used_in_function(fs, *outer, d as int, b as int, name) {
                        let w = choose|w: int|
                            0 <= w < b && #[trigger] used_in_branch(
                                fs,
                                *outer,
                                d as int,
                                w,
                                fs.anonymous[d as int].function.branches[w].body.len() as int,
                                name,
                            );
                        assert(used_in_function(fs, *outer, d as int, b + 1, name));
                    }
                    if used_in_branch(fs, *outer, d as int, b as int, n, name) {
                        assert(used_in_function(fs, *outer, d as int, b + 1, name));
                    }
                }
            }
            b = b + 1;
        }
        proof {
            assert forall|name: Seq<char>|
                #[trigger] has_name(names@, name) == used_in_functions(fs, *outer, d + 1, name) by {
                if used_in_functions(fs, *outer, d + 1, name) {
                    let w = choose|w: int|
                        0 <= w < d + 1 && #[trigger] used_in_function(
                            fs,
                            *outer,
                            w,
                            fs.anonymous[w].function.branches.len() as int,
                            name,
                        );
                    if w < d {
                        assert(used_in_functions(fs, *outer, d as int, name));
                    }
                }
                if used_in_functions(fs, *outer, d as int, name) {
                    let w = choose|w: int|
                        0 <= w < d && #[trigger] used_in_function(
                            fs,
                            *outer,
                            w,
                            fs.anonymous[w].function.branches.len() as int,
                            name,
                        );
                    assert(used_in_functions(fs, *outer, d + 1, name));
                }
                if used_in_function(
                    fs,
                    *outer,
                    d as int,
                    fs.anonymous[d as int].function.branches.len() as int,
                    name,
                ) {
                    assert(used_in_functions(fs, *outer, d + 1, name));
                }
            }
        }
        d = d + 1;
    }
    assert(names_of(names@) =~= spec_environment(fs, *outer));
    names
}

/// # The function that a job compiles
fn job_function_of<'a>(functions: &'a Functions, changes: &'a Changes, source: JobSource) -> (r: &'a Function)
    requires
        match source {
            JobSource::Added(i) => i < changes.added.len(),
            JobSource::Updated(i) => i < changes.updated.len(),
            JobSource::Anonymous(p) => p < functions.anonymous.len(),
        },
    ensures
        r.deep_view() == job_function(functions.deep_view(), changes.deep_view(), source),
{
    match source {
        JobSource::Added(i) => &changes.added[i].1,
        JobSource::Updated(i) => &changes.updated[i].new.function,
        JobSource::Anonymous(p) => &functions.anonymous[p].function,
    }
}

/// # The location of the function that a job compiles
fn job_location_of(functions: &Functions, changes: &Changes, source: JobSource) -> (r: FunctionLocation)
    requires
        match source {
            JobSource::Added(i) => i < changes.added.len(),
            JobSource::Updated(i) => i < changes.updated.len(),
            JobSource::Anonymous(p) => p < functions.anonymous.len(),
        },
    ensures
        r == job_location(functions.deep_view(), changes.deep_view(), source),
{
    match source {
        JobSource::Added(i) => changes.added[i].0.copied(),
        JobSource::Updated(i) => changes.updated[i].new.location.copied(),
        JobSource::Anonymous(p) => FunctionLocation::AnonymousFunction {
            location: functions.anonymous[p].location.copied(),
        },
    }
}

/// # The job for the named function at `location`, if it was added or updated
fn find_new_or_updated(changes: &Changes, location: &FunctionLocation) -> (r: Option<JobSource>)
    ensures
        r == new_or_updated(changes.deep_view(), *location),
        r matches Some(JobSource::Added(i)) ==> i < changes.added.len(),
        r matches Some(JobSource::Updated(i)) ==> i < changes.updated.len(),
        !(r matches Some(JobSource::Anonymous(_))),
{
    let ghost ch = changes.deep_view();
    let ghost added = ch.added.map_values(|e: (FunctionLocation, FunctionView)| e.0);
    let ghost updated = ch.updated.map_values(|u: FunctionUpdateView| u.new.location);
    let mut i: usize = 0;
    while i < changes.added.len()
        invariant
            i <= changes.added.len(),
            ch == changes.deep_view(),
            added == ch.added.map_values(|e: (FunctionLocation, FunctionView)| e.0),
            added.len() == changes.added.len(),
            forall|j: int| 0 <= j < i ==> #[trigger] added[j] != *location,
        decreases changes.added.len() - i,
    {
        if changes.added[i].0.same_as(location) {
            proof {
                lemma_first_location(added, *location, i as int);
            }
            return Some(JobSource::Added(i));
        }
        i = i + 1;
    }
    proof {
        lemma_first_location(added, *location, added.len() as int);
    }
    let mut k: usize = 0;
    while k < changes.updated.len()
        invariant
            k <= changes.updated.len(),
            ch == changes.deep_view(),
            updated == ch.updated.map_values(|u: FunctionUpdateView| u.new.location),
            updated.len() == changes.updated.len(),
            first_location(added, *location) is None,
            added == ch.added.map_values(|e: (FunctionLocation, FunctionView)| e.0),
            forall|j: int| 0 <= j < k ==> #[trigger] updated[j] != *location,
        decreases changes.updated.len() - k,
    {
        if changes.updated[k].new.location.same_as(location) {
            proof {
                lemma_first_location(updated, *location, k as int);
            }
            return Some(JobSource::Updated(k));
        }
        k = k + 1;
    }
    proof {
        lemma_first_location(updated, *location, updated.len() as int);
    }
    None
}

/// # A copy of a list of addresses
fn copy_addresses(addresses: &Vec<usize>) -> (r: Vec<usize>)
    ensures
        r@ == addresses@,
{
    let mut r: Vec<usize> = Vec::new();
    let mut i: usize = 0;
    while i < addresses.len()
        invariant
            i <= addresses.len(),
            r@ == addresses@.take(i as int),
        decreases addresses.len() - i,
    {
        r.push(addresses[i]);
        i = i + 1;
        assert(r@ =~= addresses@.take(i as int));
    }
    assert(addresses@.take(i as int) =~= addresses@);
    r
}

impl Generator {
    /// # Add an instruction at the end, and give its address
    fn push(&mut self, instruction: Instruction) -> (r: usize)
        ensures
            r == old(self)@.instructions.len(),
            final(self)@ == push_instruction(old(self)@, instruction.deep_view()),
    {
        let at = self.instructions.len();
        let ghost v = instruction.deep_view();
        let ghost before = self.instructions.deep_view();
        self.instructions.push(instruction);
        assert(self.instructions.deep_view() =~= before.push(v));
        at
    }

    /// # Replace the instruction at `address`, if there is one
    fn set(&mut self, address: usize, instruction: Instruction)
        ensures
            final(self)@ == set_instruction(old(self)@, address as int, instruction.deep_view()),
    {
        if address < self.instructions.len() {
            let ghost v = instruction.deep_view();
            let ghost before = self.instructions.deep_view();
            self.instructions[address] = instruction;
            assert(self.instructions.deep_view() =~= before.update(address as int, v));
        }
    }

    /// # Record a call of `callee` at `address`
    fn record_call(&mut self, callee: crate::code::Hash, address: usize)
        ensures
            final(self)@ == (GeneratorView { calls: record_call(old(self)@.calls, callee, address), ..old(self)@ }),
    {
        let ghost before = self@.calls;
        let found = find_key(&self.calls, &callee);
        proof {
            match found {
                Some(i) => lemma_first_with_key(before, callee, i as int),
                None => lemma_first_with_key(before, callee, before.len() as int),
            }
        }
        match found {
            Some(i) => {
                let mut addresses = copy_addresses(&self.calls[i].1);
                addresses.push(address);
                self.calls[i] = (callee, addresses);
                assert(calls_view(self.calls@) =~= before.update(i as int, (callee, before[i as int].1.push(address))));
            },
            None => {
                let mut addresses: Vec<usize> = Vec::new();
                addresses.push(address);
                self.calls.push((callee, addresses));
                assert(calls_view(self.calls@) =~= before.push((callee, seq![address])));
            },
        }
    }

    /// # Add a placeholder for a call of `callee`
    fn call_placeholder(&mut self, callee: crate::code::Hash, is_tail_call: bool) -> (r: usize)
        ensures
            r == old(self)@.instructions.len(),
            final(self)@ == call_placeholder(old(self)@, callee, is_tail_call),
    {
        let at = self.push(Instruction::TriggerEffect { effect: Effect::CompilerBug });
        self.placeholders.push(Placeholder { callee, address: at, is_tail_call });
        self.record_call(callee, at);
        at
    }

    /// # Queue the anonymous function at `position`, unless it was queued before
    fn queue_anonymous(&mut self, position: Option<usize>, address: usize, cluster: usize)
        ensures
            final(self)@ == queue_anonymous(
                old(self)@,
                match position {
                    Some(p) => Some(p as int),
                    None => None,
                },
                address,
                cluster,
            ),
    {
        if let Some(p) = position {
            if p < self.marks.len() && !self.marks[p] {
                self.marks[p] = true;
                self.jobs.push(Job { source: JobSource::Anonymous(p), placeholder: Some(address), cluster });
            }
        }
    }

    /// # Record the compiled branches of the function with `hash`
    fn record_compiled(&mut self, hash: crate::code::Hash, branches: Vec<RuntimeBranch>)
        ensures
            final(self)@ == record_compiled(old(self)@, hash, branches.deep_view()),
    {
        if branches.len() == 0 {
            return;
        }
        let ghost before = self@.compiled;
        let ghost added = branches.deep_view();
        let found = find_key(&self.compiled, &hash);
        proof {
            match found {
                Some(i) => lemma_first_with_key(before, hash, i as int),
                None => lemma_first_with_key(before, hash, before.len() as int),
            }
        }
        let mut branches = branches;
        match found {
            Some(i) => {
                let mut all = copy_branches(&self.compiled[i].1);
                let ghost existing = all.deep_view();
                all.append(&mut branches);
                assert(all.deep_view() =~= existing + added);
                self.compiled[i] = (hash, all);
                assert(compiled_view(self.compiled@) =~= before.update(i as int, (hash, before[i as int].1 + added)));
            },
            None => {
                self.compiled.push((hash, branches));
                assert(compiled_view(self.compiled@) =~= before.push((hash, added)));
            },
        }
    }

    /// # Replace the instruction at `address` by a call of the compiled
    /// function with `callee`'s hash, if there is one
    fn resolve_call(&mut self, callee: crate::code::Hash, address: usize, is_tail_call: bool)
        ensures
            final(self)@ == resolve_call(old(self)@, callee, address as int, is_tail_call),
    {
        let ghost before = self@.compiled;
        let found = find_key(&self.compiled, &callee);
        proof {
            match found {
                Some(i) => lemma_first_with_key(before, callee, i as int),
                None => lemma_first_with_key(before, callee, before.len() as int),
            }
        }
        if let Some(i) = found {
            let function = RuntimeFunction { branches: copy_branches(&self.compiled[i].1) };
            self.set(address, Instruction::CallFunction { function, is_tail_call });
        }
    }
}

impl Generator {
    /// # Compile expression `k` of `body`, the body of branch `b` of the
    /// function of `job`
    ///
    /// Gives the address of the first instruction generated, if any.
    fn compile_expression(
        &mut self,
        functions: &Functions,
        changes: &Changes,
        clusters: &Vec<Cluster>,
        job: Job,
        location: &FunctionLocation,
        parameters: &Vec<Pattern>,
        b: usize,
        body: &Vec<Expression>,
        k: usize,
        tail: Option<usize>,
    ) -> (r: Option<usize>)
        requires
            parameters.deep_view() == job_function(functions.deep_view(), changes.deep_view(), job.source).branches[b as int].parameters,
            generator_inv(functions.deep_view(), changes.deep_view(), clusters.deep_view(), old(self)@),
            job_is_valid(functions.deep_view(), changes.deep_view(), clusters.deep_view(), job),
            *location == job_location(functions.deep_view(), changes.deep_view(), job.source),
            k < body.len(),
            match last_non_comment(body.deep_view()) {
                Some(t) => tail == Some(t as usize) && 0 <= t < body.len(),
                None => tail is None,
            },
        ensures
            (final(self)@, r) == compile_expression(
                functions.deep_view(),
                changes.deep_view(),
                clusters.deep_view(),
                old(self)@,
                job,
                b as int,
                body.deep_view(),
                k as int,
            ),
            generator_inv(functions.deep_view(), changes.deep_view(), clusters.deep_view(), final(self)@),
    {
        let ghost fs = functions.deep_view();
        let ghost ch = changes.deep_view();
        let ghost cl = clusters.deep_view();
        assert(body.deep_view()[k as int] == body@[k as int].deep_view());
        match &body[k] {
            Expression::Comment { .. } => None,
            Expression::UnresolvedIdentifier { name, .. } => {
                let bound = if has_identifier(parameters, name) {
                    true
                } else {
                    is_bound_in_scope(functions, location, name)
                };
                if bound {
                    Some(self.push(Instruction::BindingEvaluate { name: name.clone() }))
                } else {
                    Some(self.push(Instruction::TriggerEffect { effect: Effect::BuildError }))
                }
            },
            Expression::UnresolvedLocalFunction | Expression::LocalFunction { .. }
            | Expression::LocalFunctionRecursive { .. } => {
                let fragment = FragmentLocation {
                    parent: Box::new(
                        BranchLocation { parent: Box::new(location.copied()), index: BranchIndex(b as u32) },
                    ),
                    index: FragmentIndexInBranchBody(k as u32),
                };
                assert(fragment == expression_location(*location, b as int, k as int));
                let at = self.push(Instruction::TriggerEffect { effect: Effect::CompilerBug });
                let position = functions.find_anonymous_position(&fragment);
                self.queue_anonymous(position, at, job.cluster);
                Some(at)
            },
            Expression::CallToHostFunction { number } => {
                let at = self.push(Instruction::Push { value: Value(*number as i32) });
                self.push(Instruction::TriggerEffect { effect: Effect::Host });
                Some(at)
            },
            Expression::CallToIntrinsicFunction { intrinsic } => {
                let is_tail_call = match tail {
                    Some(t) => t == k,
                    None => false,
                };
                Some(self.push(intrinsic_to_instruction(intrinsic, is_tail_call)))
            },
            Expression::CallToUserDefinedFunction { hash, is_tail_call } => {
                Some(self.call_placeholder(*hash, *is_tail_call))
            },
            Expression::CallToUserDefinedFunctionRecursive { index, is_tail_call } => {
                let cluster = &clusters[job.cluster];
                let i = index.0 as usize;
                let callee = if i < cluster.functions.len() {
                    functions.by_location(&cluster.functions[i])
                } else {
                    None
                };
                match callee {
                    Some(function) => {
                        let hash = crate::code::Hash::new(function);
                        Some(self.call_placeholder(hash, *is_tail_call))
                    },
                    None => Some(self.push(Instruction::TriggerEffect { effect: Effect::CompilerBug })),
                }
            },
            Expression::Value(value) => Some(self.push(Instruction::Push { value: *value })),
        }
    }

    /// # Compile branch `b` of `function`, the function of `job`
    fn compile_branch(
        &mut self,
        functions: &Functions,
        changes: &Changes,
        clusters: &Vec<Cluster>,
        job: Job,
        location: &FunctionLocation,
        function: &Function,
        b: usize,
    ) -> (r: RuntimeBranch)
        requires
            generator_inv(functions.deep_view(), changes.deep_view(), clusters.deep_view(), old(self)@),
            job_is_valid(functions.deep_view(), changes.deep_view(), clusters.deep_view(), job),
            *location == job_location(functions.deep_view(), changes.deep_view(), job.source),
            function.deep_view() == job_function(functions.deep_view(), changes.deep_view(), job.source),
            b < function.branches.len(),
        ensures
            (final(self)@, r.deep_view()) == compile_branch(
                functions.deep_view(),
                changes.deep_view(),
                clusters.deep_view(),
                old(self)@,
                job,
                b as int,
            ),
            generator_inv(functions.deep_view(), changes.deep_view(), clusters.deep_view(), final(self)@),
    {
        let ghost fs = functions.deep_view();
        let ghost ch = changes.deep_view();
        let ghost cl = clusters.deep_view();
        let ghost start = self@;
        let branch = &function.branches[b];
        let ghost parameters = branch.parameters.deep_view();
        let ghost body = branch.body.deep_view();
        assert(function.deep_view().branches[b as int] == branch.deep_view());
        let mut first_binding: Option<usize> = None;
        let mut i = branch.parameters.len();
        while i > 0
            invariant
                i <= branch.parameters.len(),
                parameters == branch.parameters.deep_view(),
                (self@, first_binding) == bind_from(start, parameters, i as int),
                generator_inv(fs, ch, cl, self@),
            decreases i,
        {
            assert(parameters[i - 1] == branch.parameters@[i - 1].deep_view());
            match &branch.parameters[i - 1] {
                Pattern::Identifier { name } => {
                    let at = self.push(Instruction::Bind { name: name.clone() });
                    if first_binding.is_none() {
                        first_binding = Some(at);
                    }
                },
                Pattern::Literal { .. } => {},
            }
            i = i - 1;
        }
        let ghost bound = self@;
        let tail = last_non_comment_position(&branch.body);
        let mut first_in_body: Option<usize> = None;
        let mut k: usize = 0;
        while k < branch.body.len()
            invariant
                k <= branch.body.len(),
                body == branch.body.deep_view(),
                (self@, first_in_body) == compile_body(fs, ch, cl, bound, job, b as int, body, k as int),
                generator_inv(fs, ch, cl, self@),
                job_is_valid(fs, ch, cl, job),
                *location == job_location(fs, ch, job.source),
                parameters == branch.parameters.deep_view(),
                parameters == job_function(fs, ch, job.source).branches[b as int].parameters,
                fs == functions.deep_view(),
                ch == changes.deep_view(),
                cl == clusters.deep_view(),
                match last_non_comment(body) {
                    Some(t) => tail == Some(t as usize) && 0 <= t < body.len(),
                    None => tail is None,
                },
            decreases branch.body.len() - k,
        {
            let at = self.compile_expression(
                functions,
                changes,
                clusters,
                job,
                location,
                &branch.parameters,
                b,
                &branch.body,
                k,
                tail,
            );
            if first_in_body.is_none() {
                first_in_body = at;
            }
            k = k + 1;
        }
        let at_return = self.push(Instruction::Return);
        let start_address = match first_binding {
            Some(a) => a,
            None => match first_in_body {
                Some(a) => a,
                None => at_return,
            },
        };
        RuntimeBranch { parameters: copy_patterns(&branch.parameters), start: start_address }
    }

    /// # Compile the function of `job`
    fn compile_function(&mut self, functions: &Functions, changes: &Changes, clusters: &Vec<Cluster>, job: Job)
        requires
            generator_inv(functions.deep_view(), changes.deep_view(), clusters.deep_view(), old(self)@),
            job_is_valid(functions.deep_view(), changes.deep_view(), clusters.deep_view(), job),
        ensures
            final(self)@ == compile_function(
                functions.deep_view(),
                changes.deep_view(),
                clusters.deep_view(),
                old(self)@,
                job,
            ),
            generator_inv(functions.deep_view(), changes.deep_view(), clusters.deep_view(), final(self)@),
    {
        let ghost fs = functions.deep_view();
        let ghost ch = changes.deep_view();
        let ghost cl = clusters.deep_view();
        let ghost start = self@;
        let function = job_function_of(functions, changes, job.source);
        let location = job_location_of(functions, changes, job.source);
        let mut branches: Vec<RuntimeBranch> = Vec::new();
        let mut b: usize = 0;
        while b < function.branches.len()
            invariant
                b <= function.branches.len(),
                function.deep_view() == job_function(fs, ch, job.source),
                location == job_location(fs, ch, job.source),
                (self@, branches.deep_view()) == compile_branches(fs, ch, cl, start, job, b as int),
                generator_inv(fs, ch, cl, self@),
                job_is_valid(fs, ch, cl, job),
                fs == functions.deep_view(),
                ch == changes.deep_view(),
                cl == clusters.deep_view(),
            decreases function.branches.len() - b,
        {
            let ghost before = branches.deep_view();
            let branch = self.compile_branch(functions, changes, clusters, job, &location, function, b);
            let ghost v = branch.deep_view();
            branches.push(branch);
            assert(branches.deep_view() =~= before.push(v));
            b = b + 1;
        }
        assert(function.deep_view().branches.len() == function.branches.len());
        let hash = crate::code::Hash::new(function);
        match job.placeholder {
            Some(address) => {
                let copy = copy_branches(&branches);
                let environment = environment_of(functions, &location);
                self.record_compiled(hash, branches);
                self.set(address, Instruction::MakeAnonymousFunction { branches: copy, environment });
            },
            None => {
                self.record_compiled(hash, branches);
            },
        }
    }
}

impl Generator {
    /// # Redirect the call at `address`, if there is one, to the compiled
    /// function with `callee`'s hash
    fn redirect_call(&mut self, address: usize, callee: crate::code::Hash)
        ensures
            final(self)@ == redirect_call(old(self)@, address as int, callee),
    {
        if address < self.instructions.len() {
            assert(self@.instructions[address as int] == self.instructions@[address as int].deep_view());
            let is_tail_call = match &self.instructions[address] {
                Instruction::CallFunction { is_tail_call, .. } => Some(*is_tail_call),
                _ => None,
            };
            if let Some(is_tail_call) = is_tail_call {
                self.resolve_call(callee, address, is_tail_call);
            }
        }
    }

    /// # Redirect the recorded calls of the function with `old_hash` to the
    /// function with `new_hash`
    fn redirect_update(&mut self, old_hash: crate::code::Hash, new_hash: crate::code::Hash)
        ensures
            final(self)@ == redirect_update(old(self)@, old_hash, new_hash),
    {
        let ghost before = self@.calls;
        let found = find_key(&self.calls, &old_hash);
        proof {
            match found {
                Some(i) => lemma_first_with_key(before, old_hash, i as int),
                None => lemma_first_with_key(before, old_hash, before.len() as int),
            }
        }
        if let Some(i) = found {
            let (_, addresses) = self.calls.remove(i);
            assert(calls_view(self.calls@) =~= before.remove(i as int));
            let ghost removed = self@;
            let mut j: usize = 0;
            while j < addresses.len()
                invariant
                    j <= addresses.len(),
                    self@ == redirect_calls(removed, addresses@, new_hash, j as int),
                decreases addresses.len() - j,
            {
                self.redirect_call(addresses[j], new_hash);
                j = j + 1;
            }
        }
    }
}

/// # The jobs for the added and updated functions, in the order of the
/// clusters
fn seed_jobs(changes: &Changes, clusters: &Vec<Cluster>) -> (r: Vec<Job>)
    ensures
        r@ == all_seeds(changes.deep_view(), clusters.deep_view(), clusters.len() as int),
        forall|j: int| 0 <= j < r@.len() ==> (match (#[trigger] r@[j]).source {
            JobSource::Added(i) => i < changes.added.len(),
            JobSource::Updated(i) => i < changes.updated.len(),
            JobSource::Anonymous(_) => false,
        }) && r@[j].cluster < clusters.len(),
{
    let ghost ch = changes.deep_view();
    let ghost cl = clusters.deep_view();
    let mut seeds: Vec<Job> = Vec::new();
    let mut c: usize = 0;
    while c < clusters.len()
        invariant
            c <= clusters.len(),
            ch == changes.deep_view(),
            cl == clusters.deep_view(),
            seeds@ == all_seeds(ch, cl, c as int),
            forall|j: int| 0 <= j < seeds@.len() ==> (match (#[trigger] seeds@[j]).source {
                JobSource::Added(i) => i < changes.added.len(),
                JobSource::Updated(i) => i < changes.updated.len(),
                JobSource::Anonymous(_) => false,
            }) && seeds@[j].cluster < clusters.len(),
        decreases clusters.len() - c,
    {
        let cluster = &clusters[c];
        let ghost locations = cl[c as int].functions;
        assert(locations == cluster.functions@);
        let ghost before = seeds@;
        let mut k: usize = 0;
        while k < cluster.functions.len()
            invariant
                k <= cluster.functions.len(),
                c < clusters.len(),
                ch == changes.deep_view(),
                locations == cluster.functions@,
                seeds@ == before + cluster_seeds(ch, c as int, locations, k as int),
                forall|j: int| 0 <= j < seeds@.len() ==> (match (#[trigger] seeds@[j]).source {
                    JobSource::Added(i) => i < changes.added.len(),
                    JobSource::Updated(i) => i < changes.updated.len(),
                    JobSource::Anonymous(_) => false,
                }) && seeds@[j].cluster < clusters.len(),
            decreases cluster.functions.len() - k,
        {
            let ghost prev = seeds@;
            match find_new_or_updated(changes, &cluster.functions[k]) {
                Some(source) => {
                    seeds.push(Job { source, placeholder: None, cluster: c });
                },
                None => {},
            }
            k = k + 1;
            assert(seeds@ =~= before + cluster_seeds(ch, c as int, locations, k as int));
        }
        c = c + 1;
        assert(seeds@ =~= all_seeds(ch, cl, c as int));
    }
    seeds
}

/// # The state at the start: the placeholder for the call to `main` added,
/// and the added and updated functions waiting to be compiled
fn start_generator(
    functions: &Functions,
    changes: &Changes,
    clusters: &Vec<Cluster>,
    instructions: Vec<Instruction>,
    calls: Vec<(crate::code::Hash, Vec<usize>)>,
) -> (r: Generator)
    ensures
        r@ == (GeneratorView {
            instructions: instructions.deep_view().push(
                InstructionView::TriggerEffect { effect: Effect::BuildError },
            ),
            calls: calls_view(calls@),
            jobs: all_seeds(changes.deep_view(), clusters.deep_view(), clusters.len() as int),
            marks: Seq::new(functions.deep_view().anonymous.len(), |i: int| false),
            placeholders: Seq::empty(),
            compiled: Seq::empty(),
        }),
        generator_inv(functions.deep_view(), changes.deep_view(), clusters.deep_view(), r@),
{
    let ghost fs = functions.deep_view();
    let ghost ch = changes.deep_view();
    let ghost cl = clusters.deep_view();
    let mut taken = instructions;
    let ghost before = taken.deep_view();
    taken.push(Instruction::TriggerEffect { effect: Effect::BuildError });
    assert(taken.deep_view() =~= before.push(InstructionView::TriggerEffect { effect: Effect::BuildError }));

    let mut marks: Vec<bool> = Vec::new();
    let mut p: usize = 0;
    while p < functions.anonymous.len()
        invariant
            p <= functions.anonymous.len(),
            marks@ == Seq::new(p as nat, |i: int| false),
        decreases functions.anonymous.len() - p,
    {
        marks.push(false);
        p = p + 1;
        assert(marks@ =~= Seq::new(p as nat, |i: int| false));
    }

    let jobs = seed_jobs(changes, clusters);
    assert forall|j: int| 0 <= j < jobs@.len() implies job_is_valid(fs, ch, cl, #[trigger] jobs@[j]) by {}
    let generator = Generator {
        instructions: taken,
        calls,
        jobs,
        marks,
        placeholders: Vec::new(),
        compiled: Vec::new(),
    };
    assert(generator@.compiled =~= Seq::<(crate::code::Hash, Seq<RuntimeBranchView>)>::empty());
    assert(generator@.marks =~= Seq::new(fs.anonymous.len(), |i: int| false));
    generator
}

impl Generator {
    /// # Compile the waiting functions, and the functions that they queue,
    /// until none waits
    fn run_jobs(&mut self, functions: &Functions, changes: &Changes, clusters: &Vec<Cluster>)
        requires
            generator_inv(functions.deep_view(), changes.deep_view(), clusters.deep_view(), old(self)@),
        ensures
            final(self)@ == run_jobs(functions.deep_view(), changes.deep_view(), clusters.deep_view(), old(self)@),
    {
        let ghost fs = functions.deep_view();
        let ghost ch = changes.deep_view();
        let ghost cl = clusters.deep_view();
        let ghost start = self@;
        while self.jobs.len() > 0
            invariant
                generator_inv(fs, ch, cl, self@),
                run_jobs(fs, ch, cl, self@) == run_jobs(fs, ch, cl, start),
                fs == functions.deep_view(),
                ch == changes.deep_view(),
                cl == clusters.deep_view(),
            decreases count_unmarked(self@.marks), self@.jobs.len(),
        {
            let ghost current = self@;
            let job = self.jobs.pop().unwrap();
            let ghost popped = self@;
            assert(popped == GeneratorView { jobs: current.jobs.drop_last(), ..current });
            assert(job == current.jobs.last());
            assert(job_is_valid(fs, ch, cl, current.jobs[current.jobs.len() - 1]));
            proof {
                lemma_function_measure(fs, ch, cl, popped, job);
            }
            self.compile_function(functions, changes, clusters, job);
        }
    }

    /// # Resolve all placeholders
    fn resolve_placeholders(&mut self)
        ensures
            final(self)@ == resolve_placeholders(old(self)@, old(self)@.placeholders, old(self)@.placeholders.len() as int),
    {
        let ghost start = self@;
        let n = self.placeholders.len();
        let mut k: usize = 0;
        while k < n
            invariant
                k <= n,
                n == start.placeholders.len(),
                self@.placeholders == start.placeholders,
                self@ == resolve_placeholders(start, start.placeholders, k as int),
            decreases n - k,
        {
            let placeholder = self.placeholders[k];
            self.resolve_call(placeholder.callee, placeholder.address, placeholder.is_tail_call);
            k = k + 1;
        }
    }
}

impl Generator {
    /// # Whether the recorded calls of the function with `old_hash` can be
    /// redirected to the function with `new_hash`
    fn update_is_possible(&self, old_hash: crate::code::Hash, new_hash: crate::code::Hash) -> (r: bool)
        ensures
            r == update_possible(self@, old_hash, new_hash),
    {
        proof {
            reveal(update_possible);
        }
        let ghost st = self@;
        let found = find_key(&self.calls, &old_hash);
        proof {
            match found {
                Some(i) => lemma_first_with_key(st.calls, old_hash, i as int),
                None => lemma_first_with_key(st.calls, old_hash, st.calls.len() as int),
            }
        }
        match found {
            None => true,
            Some(i) => {
                let compiled = find_key(&self.compiled, &new_hash);
                proof {
                    match compiled {
                        Some(j) => lemma_first_with_key(st.compiled, new_hash, j as int),
                        None => lemma_first_with_key(st.compiled, new_hash, st.compiled.len() as int),
                    }
                }
                let addresses = &self.calls[i].1;
                assert(addresses@ == st.calls[i as int].1);
                let mut m: usize = 0;
                while m < addresses.len()
                    invariant
                        m <= addresses.len(),
                        st == self@,
                        i < st.calls.len(),
                        first_with_key(st.calls, old_hash) == Some(i as int),
                        addresses@ == st.calls[i as int].1,
                        compiled is Some <==> first_with_key(st.compiled, new_hash) is Some,
                        forall|k: int|
                            0 <= k < m ==> #[trigger] call_redirectable(st, st.calls[i as int].1[k], new_hash),
                    decreases addresses.len() - m,
                {
                    let a = addresses[m];
                    assert(st.calls[i as int].1[m as int] == a);
                    if a >= self.instructions.len() || compiled.is_none() {
                        assert(st.instructions.len() == self.instructions.len());
                        assert(!call_redirectable(st, st.calls[i as int].1[m as int], new_hash));
                        assert(!update_possible(st, old_hash, new_hash)) by {
                            if update_possible(st, old_hash, new_hash) {
                                assert(first_with_key(st.calls, old_hash) == Some(i as int));
                                assert(0 <= m < st.calls[i as int].1.len());
                                lemma_update_possible_at(st, old_hash, new_hash, i as int, m as int);
                            }
                        }
                        return false;
                    }
                    assert(st.instructions[a as int] == self.instructions@[a as int].deep_view());
                    let is_call = match &self.instructions[a] {
                        Instruction::CallFunction { .. } => true,
                        _ => false,
                    };
                    if !is_call {
                        assert(!call_redirectable(st, st.calls[i as int].1[m as int], new_hash));
                        assert(!update_possible(st, old_hash, new_hash)) by {
                            if update_possible(st, old_hash, new_hash) {
                                assert(first_with_key(st.calls, old_hash) == Some(i as int));
                                assert(0 <= m < st.calls[i as int].1.len());
                                lemma_update_possible_at(st, old_hash, new_hash, i as int, m as int);
                            }
                        }
                        return false;
                    }
                    m = m + 1;
                }
                true
            },
        }
    }

    /// # Redirect the calls of the updated functions, one update after the
    /// other, as far as that is possible
    ///
    /// Stops, and gives `false`, at the first update whose calls cannot be
    /// redirected.
    #[verifier::rlimit(100)]
    fn redirect_updates_checked(&mut self, changes: &Changes) -> (r: bool)
        ensures
            r == updates_possible(old(self)@, changes.deep_view().updated, changes.updated.len() as int),
            r ==> final(self)@ == redirect_updates(
                old(self)@,
                changes.deep_view().updated,
                changes.updated.len() as int,
            ),
    {
        let ghost start = self@;
        let ghost ch = changes.deep_view();
        proof {
            reveal_with_fuel(updates_possible, 1);
        }
        let mut u: usize = 0;
        while u < changes.updated.len()
            invariant
                u <= changes.updated.len(),
                ch == changes.deep_view(),
                self@ == redirect_updates(start, ch.updated, u as int),
                updates_possible(start, ch.updated, u as int),
                start == old(self)@,
            decreases changes.updated.len() - u,
        {
            let ghost before = self@;
            let ghost old_hash = spec_hash_of(ch.updated[u as int].old.function);
            let ghost new_hash = spec_hash_of(ch.updated[u as int].new.function);
            proof {
                lemma_updates_step(start, ch.updated, u as int);
            }
            let possible = self.redirect_update_checked(changes, u);
            if !possible {
                proof {
                    assert(!update_possible(before, old_hash, new_hash));
                    assert(!updates_possible(start, ch.updated, u + 1));
                    lemma_updates_impossible_after(start, ch.updated, u + 1, ch.updated.len() as int);
                }
                return false;
            }
            assert(self@ == redirect_update(before, old_hash, new_hash));
            u = u + 1;
        }
        true
    }

    /// # Redirect the calls of the update at position `u`, if that is possible
    fn redirect_update_checked(&mut self, changes: &Changes, u: usize) -> (r: bool)
        requires
            u < changes.updated.len(),
        ensures
            r == update_possible(
                old(self)@,
                spec_hash_of(changes.deep_view().updated[u as int].old.function),
                spec_hash_of(changes.deep_view().updated[u as int].new.function),
            ),
            r ==> final(self)@ == redirect_update(
                old(self)@,
                spec_hash_of(changes.deep_view().updated[u as int].old.function),
                spec_hash_of(changes.deep_view().updated[u as int].new.function),
            ),
    {
        let old_hash = crate::code::Hash::new(&changes.updated[u].old.function);
        let new_hash = crate::code::Hash::new(&changes.updated[u].new.function);
        if !self.update_is_possible(old_hash, new_hash) {
            return false;
        }
        self.redirect_update(old_hash, new_hash);
        true
    }
}

proof fn lemma_updates_step(st: GeneratorView, updates: Seq<FunctionUpdateView>, u: int)
    requires
        0 <= u,
    ensures
        updates_possible(st, updates, u + 1) == (updates_possible(st, updates, u) && update_possible(
            redirect_updates(st, updates, u),
            spec_hash_of(updates[u].old.function),
            spec_hash_of(updates[u].new.function),
        )),
        redirect_updates(st, updates, u + 1) == redirect_update(
            redirect_updates(st, updates, u),
            spec_hash_of(updates[u].old.function),
            spec_hash_of(updates[u].new.function),
        ),
{
    reveal_with_fuel(updates_possible, 1);
}

proof fn lemma_update_possible_at(st: GeneratorView, old_hash: crate::code::Hash, new_hash: crate::code::Hash, i: int, m: int)
    requires
        update_possible(st, old_hash, new_hash),
        first_with_key(st.calls, old_hash) == Some(i),
        0 <= m < st.calls[i].1.len(),
    ensures
        call_redirectable(st, st.calls[i].1[m], new_hash),
{
    reveal(update_possible);
    assert(calls_redirectable(st, st.calls[i].1, new_hash));
}

proof fn lemma_updates_impossible_after(st: GeneratorView, updates: Seq<FunctionUpdateView>, k: int, n: int)
    requires
        0 < k <= n,
        !updates_possible(st, updates, k),
    ensures
        !updates_possible(st, updates, n),
    decreases n - k,
{
    if k < n {
        lemma_updates_impossible_after(st, updates, k, n - 1);
        reveal_with_fuel(updates_possible, 1);
    }
}

/// # The state once all functions are compiled and the placeholders resolved
fn resolved_generator(
    functions: &Functions,
    changes: &Changes,
    clusters: &Vec<Cluster>,
    instructions: Vec<Instruction>,
    calls: Vec<(crate::code::Hash, Vec<usize>)>,
) -> (r: Generator)
    ensures
        r@ == resolved_generation(
            functions.deep_view(),
            changes.deep_view(),
            clusters.deep_view(),
            instructions.deep_view(),
            calls_view(calls@),
        ),
{
    let main_address = instructions.len();
    let mut generator = start_generator(functions, changes, clusters, instructions, calls);
    generator.run_jobs(functions, changes, clusters);
    match functions.find_named_position("main") {
        Some(i) => {
            let hash = crate::code::Hash::new(&functions.named[i].inner);
            generator.resolve_call(hash, main_address, true);
        },
        None => {},
    }
    generator.resolve_placeholders();
    generator
}

/// # Generate the instructions for the added and updated functions
///
/// Appends the instructions to `instructions`: first a call to `main`, then
/// the compiled functions. `calls_by_function` records, by the hash of the
/// called function, the addresses of the calls that were generated; it is
/// carried from one compilation of a program to the next, so that the calls
/// to an updated function can be redirected to its new version.
///
/// Requires that this redirection is possible: that each recorded call of an
/// updated function's old version is a call instruction, and that its new
/// version is compiled. [`generate_instructions_checked`] tests this first.
///
/// The map from source code to instructions is not part of this model.
pub fn generate_instructions(
    functions: &StableFunctions,
    ordered_functions: &OrderedFunctions,
    changes: &Changes,
    instructions: &mut Vec<Instruction>,
    calls_by_function: &mut Vec<(crate::code::Hash, Vec<usize>)>,
)
    requires
        spec_can_redirect(
            functions.spec_functions(),
            changes.deep_view(),
            ordered_functions.clusters.deep_view(),
            old(instructions).deep_view(),
            calls_view(old(calls_by_function)@),
        ),
    ensures
        (final(instructions).deep_view(), calls_view(final(calls_by_function)@))
            == spec_generate_instructions(
            functions.spec_functions(),
            changes.deep_view(),
            ordered_functions.clusters.deep_view(),
            old(instructions).deep_view(),
            calls_view(old(calls_by_function)@),
        ),
{
    let functions = functions.functions();
    let clusters = ordered_functions.clusters_from_leaves();
    let mut taken: Vec<Instruction> = Vec::new();
    std::mem::swap(&mut taken, instructions);
    let mut calls: Vec<(crate::code::Hash, Vec<usize>)> = Vec::new();
    std::mem::swap(&mut calls, calls_by_function);

    let mut generator = resolved_generator(functions, changes, clusters, taken, calls);
    let redirected = generator.redirect_updates_checked(changes);
    assert(redirected);
    std::mem::swap(instructions, &mut generator.instructions);
    std::mem::swap(calls_by_function, &mut generator.calls);
}

/// # Generate the instructions, where the calls of updated functions can be
/// redirected
///
/// Where they can, as [`generate_instructions`] requires, does what it does
/// and gives `true`. Otherwise changes nothing and gives `false`.
pub fn generate_instructions_checked(
    functions: &StableFunctions,
    ordered_functions: &OrderedFunctions,
    changes: &Changes,
    instructions: &mut Vec<Instruction>,
    calls_by_function: &mut Vec<(crate::code::Hash, Vec<usize>)>,
) -> (r: bool)
    ensures
        r == spec_can_redirect(
            functions.spec_functions(),
            changes.deep_view(),
            ordered_functions.clusters.deep_view(),
            old(instructions).deep_view(),
            calls_view(old(calls_by_function)@),
        ),
        r ==> (final(instructions).deep_view(), calls_view(final(calls_by_function)@))
            == spec_generate_instructions(
            functions.spec_functions(),
            changes.deep_view(),
            ordered_functions.clusters.deep_view(),
            old(instructions).deep_view(),
            calls_view(old(calls_by_function)@),
        ),
        !r ==> final(instructions).deep_view() == old(instructions).deep_view() && calls_view(
            final(calls_by_function)@,
        ) == calls_view(old(calls_by_function)@),
{
    let instructions_copy = copy_instructions(instructions);
    let calls_copy = copy_calls(calls_by_function);
    let mut trial = resolved_generator(
        functions.functions(),
        changes,
        ordered_functions.clusters_from_leaves(),
        instructions_copy,
        calls_copy,
    );
    if trial.redirect_updates_checked(changes) {
        generate_instructions(functions, ordered_functions, changes, instructions, calls_by_function);
        true
    } else {
        false
    }
}

/// # A copy of a table of calls
fn copy_calls(calls: &Vec<(crate::code::Hash, Vec<usize>)>) -> (r: Vec<(crate::code::Hash, Vec<usize>)>)
    ensures
        calls_view(r@) == calls_view(calls@),
{
    let mut r: Vec<(crate::code::Hash, Vec<usize>)> = Vec::new();
    let mut i: usize = 0;
    while i < calls.len()
        invariant
            i <= calls.len(),
            calls_view(r@) == calls_view(calls@).take(i as int),
        decreases calls.len() - i,
    {
        let ghost before = calls_view(r@);
        r.push((calls[i].0, copy_addresses(&calls[i].1)));
        assert(calls_view(r@) =~= before.push(calls_view(calls@)[i as int]));
        assert(calls_view(calls@).take(i + 1) =~= calls_view(calls@).take(i as int).push(
            calls_view(calls@)[i as int],
        ));
        i = i + 1;
    }
    assert(calls_view(calls@).take(i as int) =~= calls_view(calls@));
    r
}

/// Whether `after` is `before`, or both are calls with the same tail-call
/// flag
pub open spec fn same_or_redirected(before: InstructionView, after: InstructionView) -> bool {
    ||| after == before
    ||| (before matches InstructionView::CallFunction { is_tail_call: t, .. } && after matches InstructionView::CallFunction {
        is_tail_call: u,
        ..
    } && t == u)
}

/// Whether `after` starts with the instructions of `before`, each of them
/// kept or redirected
pub open spec fn keeps_earlier(before: Seq<InstructionView>, after: Seq<InstructionView>) -> bool {
    &&& after.len() >= before.len()
    &&& forall|a: int| 0 <= a < before.len() ==> same_or_redirected(before[a], #[trigger] after[a])
}

/// Whether the instruction that a job is to replace, if any, is at `n` or
/// after it
pub open spec fn placed_from(job: Job, n: int) -> bool {
    match job.placeholder {
        Some(a) => a >= n,
        None => true,
    }
}

/// Whether `st` keeps the instructions of `base`, and only refers to later
/// addresses to replace, as long as its addresses fit in a `usize`
pub open spec fn keeps_base(base: Seq<InstructionView>, st: GeneratorView) -> bool {
    st.instructions.len() <= usize::MAX ==> {
        &&& keeps_earlier(base, st.instructions)
        &&& forall|j: int| 0 <= j < st.jobs.len() ==> placed_from(#[trigger] st.jobs[j], base.len() as int)
        &&& forall|j: int| 0 <= j < st.placeholders.len() ==> (#[trigger] st.placeholders[j]).address >= base.len()
    }
}

/// Whether `after` keeps `base` as `before` does, and has no fewer instructions
pub open spec fn step_keeps(base: Seq<InstructionView>, before: GeneratorView, after: GeneratorView) -> bool {
    &&& after.instructions.len() >= before.instructions.len()
    &&& keeps_base(base, before) ==> keeps_base(base, after)
}

proof fn lemma_push_keeps(base: Seq<InstructionView>, st: GeneratorView, instruction: InstructionView)
    ensures
        step_keeps(base, st, push_instruction(st, instruction)),
{
    let after = push_instruction(st, instruction);
    if keeps_base(base, st) && after.instructions.len() <= usize::MAX {
        assert forall|a: int| 0 <= a < base.len() implies same_or_redirected(base[a], #[trigger] after.instructions[a]) by {
            assert(after.instructions[a] == st.instructions[a]);
        }
    }
}

proof fn lemma_set_keeps(base: Seq<InstructionView>, st: GeneratorView, address: int, instruction: InstructionView)
    requires
        keeps_base(base, st) && st.instructions.len() <= usize::MAX ==> address >= base.len(),
    ensures
        step_keeps(base, st, set_instruction(st, address, instruction)),
{
    let after = set_instruction(st, address, instruction);
    if keeps_base(base, st) && after.instructions.len() <= usize::MAX {
        assert forall|a: int| 0 <= a < base.len() implies same_or_redirected(base[a], #[trigger] after.instructions[a]) by {
            assert(after.instructions[a] == st.instructions[a]);
        }
    }
}

proof fn lemma_call_placeholder_keeps(base: Seq<InstructionView>, st: GeneratorView, callee: crate::code::Hash, t: bool)
    ensures
        step_keeps(base, st, call_placeholder(st, callee, t)),
{
    let after = call_placeholder(st, callee, t);
    if keeps_base(base, st) && after.instructions.len() <= usize::MAX {
        assert forall|a: int| 0 <= a < base.len() implies same_or_redirected(base[a], #[trigger] after.instructions[a]) by {
            assert(after.instructions[a] == st.instructions[a]);
        }
        assert forall|j: int| 0 <= j < after.placeholders.len() implies (#[trigger] after.placeholders[j]).address
            >= base.len() by {
            if j < st.placeholders.len() {
                assert(after.placeholders[j] == st.placeholders[j]);
            }
        }
    }
}

proof fn lemma_expression_keeps(
    fs: FunctionsView,
    ch: ChangesView,
    cl: Seq<ClusterView>,
    base: Seq<InstructionView>,
    st: GeneratorView,
    job: Job,
    b: int,
    body: Seq<ExpressionView>,
    k: int,
)
    ensures
        step_keeps(base, st, compile_expression(fs, ch, cl, st, job, b, body, k).0),
{
    let at = st.instructions.len() as usize;
    match body[k] {
        ExpressionView::Comment { .. } => {},
        ExpressionView::UnresolvedIdentifier { name, .. } => {
            let instruction = if binds(job_function(fs, ch, job.source).branches[b].parameters, name)
                || bound_in_scope(fs, job_location(fs, ch, job.source), name) {
                InstructionView::BindingEvaluate { name }
            } else {
                InstructionView::TriggerEffect { effect: Effect::BuildError }
            };
            lemma_push_keeps(base, st, instruction);
        },
        ExpressionView::UnresolvedLocalFunction | ExpressionView::LocalFunction { .. }
        | ExpressionView::LocalFunctionRecursive { .. } => {
            let location = expression_location(job_location(fs, ch, job.source), b, k);
            let with_placeholder = push_instruction(
                st,
                InstructionView::TriggerEffect { effect: Effect::CompilerBug },
            );
            lemma_push_keeps(base, st, InstructionView::TriggerEffect { effect: Effect::CompilerBug });
            let after = queue_anonymous(with_placeholder, anonymous_position(fs.anonymous, location), at, job.cluster);
            if keeps_base(base, st) && after.instructions.len() <= usize::MAX {
                assert(at as int == st.instructions.len());
                assert forall|j: int| 0 <= j < after.jobs.len() implies placed_from(
                    #[trigger] after.jobs[j],
                    base.len() as int,
                ) by {
                    if j < with_placeholder.jobs.len() {
                        assert(after.jobs[j] == with_placeholder.jobs[j]);
                    }
                }
            }
        },
        ExpressionView::CallToHostFunction { number } => {
            let first = push_instruction(st, InstructionView::Push { value: Value(number as i32) });
            lemma_push_keeps(base, st, InstructionView::Push { value: Value(number as i32) });
            lemma_push_keeps(base, first, InstructionView::TriggerEffect { effect: Effect::Host });
        },
        ExpressionView::CallToIntrinsicFunction { intrinsic } => {
            lemma_push_keeps(
                base,
                st,
                spec_intrinsic_to_instruction(intrinsic, last_non_comment(body) == Some(k)),
            );
        },
        ExpressionView::CallToUserDefinedFunction { hash, is_tail_call } => {
            lemma_call_placeholder_keeps(base, st, hash, is_tail_call);
        },
        ExpressionView::CallToUserDefinedFunctionRecursive { index, is_tail_call } => {
            match recursive_callee(fs, cl, job.cluster as int, index) {
                Some(f) => lemma_call_placeholder_keeps(base, st, spec_hash_of(f), is_tail_call),
                None => lemma_push_keeps(base, st, InstructionView::TriggerEffect { effect: Effect::CompilerBug }),
            }
        },
        ExpressionView::Value(value) => {
            lemma_push_keeps(base, st, InstructionView::Push { value });
        },
    }
}

proof fn lemma_body_keeps(
    fs: FunctionsView,
    ch: ChangesView,
    cl: Seq<ClusterView>,
    base: Seq<InstructionView>,
    st: GeneratorView,
    job: Job,
    b: int,
    body: Seq<ExpressionView>,
    k: int,
)
    ensures
        step_keeps(base, st, compile_body(fs, ch, cl, st, job, b, body, k).0),
    decreases k,
{
    if k > 0 {
        lemma_body_keeps(fs, ch, cl, base, st, job, b, body, k - 1);
        let before = compile_body(fs, ch, cl, st, job, b, body, k - 1).0;
        lemma_expression_keeps(fs, ch, cl, base, before, job, b, body, k - 1);
    }
}

proof fn lemma_bind_keeps(base: Seq<InstructionView>, st: GeneratorView, parameters: Seq<PatternView>, i: int)
    ensures
        step_keeps(base, st, bind_from(st, parameters, i).0),
    decreases parameters.len() - i,
{
    if 0 <= i < parameters.len() {
        lemma_bind_keeps(base, st, parameters, i + 1);
        let before = bind_from(st, parameters, i + 1).0;
        match parameters[i] {
            PatternView::Identifier { name } => lemma_push_keeps(base, before, InstructionView::Bind { name }),
            PatternView::Literal { .. } => {},
        }
    }
}

proof fn lemma_branches_keep(
    fs: FunctionsView,
    ch: ChangesView,
    cl: Seq<ClusterView>,
    base: Seq<InstructionView>,
    st: GeneratorView,
    job: Job,
    n: int,
)
    ensures
        step_keeps(base, st, compile_branches(fs, ch, cl, st, job, n).0),
    decreases n,
{
    if n > 0 {
        lemma_branches_keep(fs, ch, cl, base, st, job, n - 1);
        let before = compile_branches(fs, ch, cl, st, job, n - 1).0;
        let branch = job_function(fs, ch, job.source).branches[n - 1];
        lemma_bind_keeps(base, before, branch.parameters, 0);
        let bound = bind_from(before, branch.parameters, 0).0;
        lemma_body_keeps(fs, ch, cl, base, bound, job, n - 1, branch.body, branch.body.len() as int);
        let compiled = compile_body(fs, ch, cl, bound, job, n - 1, branch.body, branch.body.len() as int).0;
        lemma_push_keeps(base, compiled, InstructionView::Return);
    }
}

proof fn lemma_function_keeps(
    fs: FunctionsView,
    ch: ChangesView,
    cl: Seq<ClusterView>,
    base: Seq<InstructionView>,
    st: GeneratorView,
    job: Job,
)
    requires
        placed_from(job, base.len() as int),
    ensures
        step_keeps(base, st, compile_function(fs, ch, cl, st, job)),
{
    let function = job_function(fs, ch, job.source);
    lemma_branches_keep(fs, ch, cl, base, st, job, function.branches.len() as int);
    let (compiled, branches) = compile_branches(fs, ch, cl, st, job, function.branches.len() as int);
    let recorded = record_compiled(compiled, spec_hash_of(function), branches);
    assert(step_keeps(base, compiled, recorded));
    match job.placeholder {
        Some(a) => lemma_set_keeps(
            base,
            recorded,
            a as int,
            InstructionView::MakeAnonymousFunction {
                branches,
                environment: spec_environment(fs, job_location(fs, ch, job.source)),
            },
        ),
        None => {},
    }
}

proof fn lemma_run_keeps(fs: FunctionsView, ch: ChangesView, cl: Seq<ClusterView>, base: Seq<InstructionView>, st: GeneratorView)
    requires
        keeps_base(base, st),
    ensures
        keeps_base(base, run_jobs(fs, ch, cl, st)),
        run_jobs(fs, ch, cl, st).instructions.len() >= st.instructions.len(),
        run_jobs(fs, ch, cl, st).jobs.len() == 0,
    decreases count_unmarked(st.marks), st.jobs.len(),
{
    if st.jobs.len() > 0 {
        let job = st.jobs.last();
        let popped = GeneratorView { jobs: st.jobs.drop_last(), ..st };
        assert(job == st.jobs[st.jobs.len() - 1]);
        assert(keeps_base(base, popped)) by {
            if st.instructions.len() <= usize::MAX {
                assert forall|j: int| 0 <= j < popped.jobs.len() implies placed_from(
                    #[trigger] popped.jobs[j],
                    base.len() as int,
                ) by {
                    assert(popped.jobs[j] == st.jobs[j]);
                }
            }
        }
        lemma_function_measure(fs, ch, cl, popped, job);
        let next = compile_function(fs, ch, cl, popped, job);
        if placed_from(job, base.len() as int) {
            lemma_function_keeps(fs, ch, cl, base, popped, job);
        } else {
            // Only where the addresses no longer fit: then neither do those
            // of any later state.
            assert(st.instructions.len() > usize::MAX);
            lemma_function_grows(fs, ch, cl, popped, job);
        }
        lemma_run_keeps(fs, ch, cl, base, next);
    }
}

proof fn lemma_function_grows(fs: FunctionsView, ch: ChangesView, cl: Seq<ClusterView>, st: GeneratorView, job: Job)
    ensures
        compile_function(fs, ch, cl, st, job).instructions.len() >= st.instructions.len(),
{
    let empty = Seq::<InstructionView>::empty();
    lemma_branches_keep(fs, ch, cl, empty, st, job, job_function(fs, ch, job.source).branches.len() as int);
}

proof fn lemma_resolve_keeps(base: Seq<InstructionView>, st: GeneratorView, callee: crate::code::Hash, address: int, t: bool)
    requires
        st.instructions.len() <= usize::MAX ==> address >= base.len(),
    ensures
        step_keeps(base, st, resolve_call(st, callee, address, t)),
{
    match first_with_key(st.compiled, callee) {
        Some(i) => lemma_set_keeps(
            base,
            st,
            address,
            InstructionView::CallFunction { function: st.compiled[i].1, is_tail_call: t },
        ),
        None => {},
    }
}

proof fn lemma_placeholders_keep(base: Seq<InstructionView>, st: GeneratorView, placeholders: Seq<Placeholder>, n: int)
    requires
        n <= placeholders.len(),
        st.instructions.len() <= usize::MAX ==> forall|j: int|
            0 <= j < placeholders.len() ==> (#[trigger] placeholders[j]).address >= base.len(),
    ensures
        step_keeps(base, st, resolve_placeholders(st, placeholders, n)),
    decreases n,
{
    if n > 0 {
        lemma_placeholders_keep(base, st, placeholders, n - 1);
        let before = resolve_placeholders(st, placeholders, n - 1);
        let p = placeholders[n - 1];
        lemma_resolve_keeps(base, before, p.callee, p.address as int, p.is_tail_call);
    }
}

proof fn lemma_redirect_call_keeps(base: Seq<InstructionView>, st: GeneratorView, address: int, callee: crate::code::Hash)
    ensures
        step_keeps(base, st, redirect_call(st, address, callee)),
{
    if 0 <= address < st.instructions.len() {
        match st.instructions[address] {
            InstructionView::CallFunction { is_tail_call, .. } => {
                match first_with_key(st.compiled, callee) {
                    Some(i) => {
                        let after = resolve_call(st, callee, address, is_tail_call);
                        if keeps_base(base, st) && after.instructions.len() <= usize::MAX {
                            assert forall|a: int| 0 <= a < base.len() implies same_or_redirected(
                                base[a],
                                #[trigger] after.instructions[a],
                            ) by {
                                if a != address {
                                    assert(after.instructions[a] == st.instructions[a]);
                                } else {
                                    assert(same_or_redirected(base[a], st.instructions[a]));
                                }
                            }
                        }
                    },
                    None => {},
                }
            },
            _ => {},
        }
    }
}

proof fn lemma_redirect_calls_keep(
    base: Seq<InstructionView>,
    st: GeneratorView,
    addresses: Seq<usize>,
    callee: crate::code::Hash,
    n: int,
)
    ensures
        step_keeps(base, st, redirect_calls(st, addresses, callee, n)),
    decreases n,
{
    if n > 0 {
        lemma_redirect_calls_keep(base, st, addresses, callee, n - 1);
        lemma_redirect_call_keeps(base, redirect_calls(st, addresses, callee, n - 1), addresses[n - 1] as int, callee);
    }
}

proof fn lemma_updates_keep(base: Seq<InstructionView>, st: GeneratorView, updates: Seq<FunctionUpdateView>, n: int)
    ensures
        step_keeps(base, st, redirect_updates(st, updates, n)),
    decreases n,
{
    if n > 0 {
        lemma_updates_keep(base, st, updates, n - 1);
        let before = redirect_updates(st, updates, n - 1);
        let old_hash = spec_hash_of(updates[n - 1].old.function);
        match first_with_key(before.calls, old_hash) {
            Some(i) => {
                let addresses = before.calls[i].1;
                let removed = GeneratorView { calls: before.calls.remove(i), ..before };
                assert(keeps_base(base, before) ==> keeps_base(base, removed));
                lemma_redirect_calls_keep(
                    base,
                    removed,
                    addresses,
                    spec_hash_of(updates[n - 1].new.function),
                    addresses.len() as int,
                );
            },
            None => {},
        }
    }
}

proof fn lemma_cluster_seeds_unplaced(ch: ChangesView, c: int, functions: Seq<FunctionLocation>, k: int)
    ensures
        forall|j: int| 0 <= j < cluster_seeds(ch, c, functions, k).len() ==> (#[trigger] cluster_seeds(
            ch,
            c,
            functions,
            k,
        )[j]).placeholder is None,
    decreases k,
{
    if k > 0 {
        lemma_cluster_seeds_unplaced(ch, c, functions, k - 1);
        let before = cluster_seeds(ch, c, functions, k - 1);
        let all = cluster_seeds(ch, c, functions, k);
        assert forall|j: int| 0 <= j < all.len() implies (#[trigger] all[j]).placeholder is None by {
            if j < before.len() {
                assert(all[j] == before[j]);
            }
        }
    }
}

proof fn lemma_all_seeds_unplaced(ch: ChangesView, cl: Seq<ClusterView>, n: int)
    ensures
        forall|j: int| 0 <= j < all_seeds(ch, cl, n).len() ==> (#[trigger] all_seeds(ch, cl, n)[j]).placeholder is None,
    decreases n,
{
    if n > 0 {
        lemma_all_seeds_unplaced(ch, cl, n - 1);
        lemma_cluster_seeds_unplaced(ch, n - 1, cl[n - 1].functions, cl[n - 1].functions.len() as int);
        let before = all_seeds(ch, cl, n - 1);
        let cluster = cluster_seeds(ch, n - 1, cl[n - 1].functions, cl[n - 1].functions.len() as int);
        let all = all_seeds(ch, cl, n);
        assert forall|j: int| 0 <= j < all.len() implies (#[trigger] all[j]).placeholder is None by {
            if j < before.len() {
                assert(all[j] == before[j]);
            } else {
                assert(all[j] == cluster[j - before.len()]);
            }
        }
    }
}

proof fn lemma_seeds_have_no_placeholder(ch: ChangesView, cl: Seq<ClusterView>, jobs: Seq<Job>, base: Seq<InstructionView>)
    requires
        jobs == all_seeds(ch, cl, cl.len() as int),
    ensures
        forall|j: int| 0 <= j < jobs.len() ==> placed_from(#[trigger] jobs[j], base.len() as int),
{
    lemma_all_seeds_unplaced(ch, cl, cl.len() as int);
}

/// Generating instructions keeps the instructions that were there before: it
/// appends at least the call to `main`, and changes an earlier instruction only
/// where it redirects a call to another function, keeping whether it is a
/// tail call. So a running program keeps running on the code it had, while
/// its calls of updated functions reach their new versions.
pub proof fn generating_keeps_earlier_instructions(
    fs: FunctionsView,
    ch: ChangesView,
    cl: Seq<ClusterView>,
    instructions: Seq<InstructionView>,
    calls: Seq<(crate::code::Hash, Seq<usize>)>,
)
    requires
        spec_generate_instructions(fs, ch, cl, instructions, calls).0.len() <= usize::MAX,
    ensures
        spec_generate_instructions(fs, ch, cl, instructions, calls).0.len() > instructions.len(),
        keeps_earlier(instructions, spec_generate_instructions(fs, ch, cl, instructions, calls).0),
{
    let main_address = instructions.len() as int;
    let start = start_of_generation(fs, ch, cl, instructions, calls);
    let base = instructions;
    assert(keeps_base(base, start)) by {
        assert forall|a: int| 0 <= a < base.len() implies same_or_redirected(base[a], #[trigger] start.instructions[a]) by {
            assert(start.instructions[a] == base[a]);
        }
        lemma_seeds_have_no_placeholder(ch, cl, all_seeds(ch, cl, cl.len() as int), base);
    }
    lemma_run_keeps(fs, ch, cl, base, start);
    let compiled = run_jobs(fs, ch, cl, start);
    let with_main = match fs.named_position("main"@) {
        Some(i) => resolve_call(compiled, spec_hash_of(fs.named[i].inner), main_address, true),
        None => compiled,
    };
    match fs.named_position("main"@) {
        Some(i) => lemma_resolve_keeps(base, compiled, spec_hash_of(fs.named[i].inner), main_address, true),
        None => {},
    }
    lemma_placeholders_keep(base, with_main, compiled.placeholders, compiled.placeholders.len() as int);
    let resolved = resolve_placeholders(with_main, compiled.placeholders, compiled.placeholders.len() as int);
    lemma_updates_keep(base, resolved, ch.updated, ch.updated.len() as int);
    assert(start.instructions.len() == base.len() + 1);
}

/// `instruction`, redirected to call `function`, if it is a call
pub open spec fn redirected(instruction: InstructionView, function: Seq<RuntimeBranchView>) -> InstructionView {
    match instruction {
        InstructionView::CallFunction { is_tail_call, .. } => InstructionView::CallFunction { function, is_tail_call },
        _ => instruction,
    }
}

/// Whether `address` is among the first `n` of `addresses`
pub open spec fn among_first(addresses: Seq<usize>, n: int, address: int) -> bool {
    exists|m: int| 0 <= m < n && addresses[m] as int == address
}

proof fn lemma_redirect_calls_effect(
    st: GeneratorView,
    addresses: Seq<usize>,
    callee: crate::code::Hash,
    j: int,
    n: int,
)
    requires
        first_with_key(st.compiled, callee) == Some(j),
        0 <= n <= addresses.len(),
    ensures
        redirect_calls(st, addresses, callee, n).compiled == st.compiled,
        redirect_calls(st, addresses, callee, n).instructions.len() == st.instructions.len(),
        forall|x: int|
            0 <= x < st.instructions.len() ==> #[trigger] redirect_calls(st, addresses, callee, n).instructions[x]
                == if among_first(addresses, n, x) {
                redirected(st.instructions[x], st.compiled[j].1)
            } else {
                st.instructions[x]
            },
    decreases n,
{
    if n > 0 {
        lemma_redirect_calls_effect(st, addresses, callee, j, n - 1);
        let before = redirect_calls(st, addresses, callee, n - 1);
        let after = redirect_calls(st, addresses, callee, n);
        let a = addresses[n - 1] as int;
        assert(after == redirect_call(before, a, callee));
        assert forall|x: int| 0 <= x < st.instructions.len() implies #[trigger] after.instructions[x] == if among_first(
            addresses,
            n,
            x,
        ) {
            redirected(st.instructions[x], st.compiled[j].1)
        } else {
            st.instructions[x]
        } by {
            if x == a {
                assert(among_first(addresses, n, x)) by {
                    assert(addresses[n - 1] as int == x);
                }
            } else {
                if among_first(addresses, n, x) {
                    let m = choose|m: int| 0 <= m < n && addresses[m] as int == x;
                    assert(m != n - 1);
                    assert(among_first(addresses, n - 1, x));
                } else {
                    if among_first(addresses, n - 1, x) {
                        let m = choose|m: int| 0 <= m < n - 1 && addresses[m] as int == x;
                        assert(0 <= m < n && addresses[m] as int == x);
                    }
                }
            }
        }
    }
}

/// Redirecting the calls of an updated function: each recorded call of its
/// old version that is a call instruction then calls its new version, if that
/// was compiled, and keeps whether it is a tail call. The calls of the old
/// version are no longer recorded.
pub proof fn redirected_calls_reach_new_version(
    st: GeneratorView,
    old_hash: crate::code::Hash,
    new_hash: crate::code::Hash,
    i: int,
    j: int,
    m: int,
)
    requires
        first_with_key(st.calls, old_hash) == Some(i),
        first_with_key(st.compiled, new_hash) == Some(j),
        0 <= m < st.calls[i].1.len(),
        0 <= st.calls[i].1[m] < st.instructions.len(),
        st.instructions[st.calls[i].1[m] as int] is CallFunction,
    ensures
        redirect_update(st, old_hash, new_hash).instructions[st.calls[i].1[m] as int]
            == (InstructionView::CallFunction {
            function: st.compiled[j].1,
            is_tail_call: st.instructions[st.calls[i].1[m] as int]->CallFunction_is_tail_call,
        }),
        redirect_update(st, old_hash, new_hash).calls == st.calls.remove(i),
{
    let addresses = st.calls[i].1;
    let removed = GeneratorView { calls: st.calls.remove(i), ..st };
    let a = addresses[m] as int;
    lemma_redirect_calls_effect(removed, addresses, new_hash, j, addresses.len() as int);
    assert(among_first(addresses, addresses.len() as int, a));
    lemma_redirect_calls_keep_calls(removed, addresses, new_hash, addresses.len() as int);
}

proof fn lemma_redirect_calls_keep_calls(st: GeneratorView, addresses: Seq<usize>, callee: crate::code::Hash, n: int)
    ensures
        redirect_calls(st, addresses, callee, n).calls == st.calls,
    decreases n,
{
    if n > 0 {
        lemma_redirect_calls_keep_calls(st, addresses, callee, n - 1);
    }
}

/// Whether `instruction` triggers a build error, or is a tail call
pub open spec fn starts_program(instruction: InstructionView) -> bool {
    ||| instruction == (InstructionView::TriggerEffect { effect: Effect::BuildError })
    ||| instruction matches InstructionView::CallFunction { is_tail_call: true, .. }
}

proof fn lemma_placeholders_elsewhere(st: GeneratorView, placeholders: Seq<Placeholder>, n: int, x: int)
    requires
        0 <= x < st.instructions.len(),
        n <= placeholders.len(),
        forall|j: int| 0 <= j < placeholders.len() ==> (#[trigger] placeholders[j]).address != x,
    ensures
        resolve_placeholders(st, placeholders, n).instructions.len() == st.instructions.len(),
        resolve_placeholders(st, placeholders, n).instructions[x] == st.instructions[x],
    decreases n,
{
    if n > 0 {
        lemma_placeholders_elsewhere(st, placeholders, n - 1, x);
        assert(placeholders[n - 1].address != x);
    }
}

proof fn lemma_redirect_call_starts(st: GeneratorView, address: int, callee: crate::code::Hash, x: int)
    requires
        0 <= x < st.instructions.len(),
        starts_program(st.instructions[x]),
    ensures
        redirect_call(st, address, callee).instructions.len() == st.instructions.len(),
        starts_program(redirect_call(st, address, callee).instructions[x]),
        !(st.instructions[x] is CallFunction) ==> redirect_call(st, address, callee).instructions[x]
            == st.instructions[x],
{
}

proof fn lemma_redirect_calls_starts(st: GeneratorView, addresses: Seq<usize>, callee: crate::code::Hash, n: int, x: int)
    requires
        0 <= x < st.instructions.len(),
        starts_program(st.instructions[x]),
    ensures
        redirect_calls(st, addresses, callee, n).instructions.len() == st.instructions.len(),
        starts_program(redirect_calls(st, addresses, callee, n).instructions[x]),
        !(st.instructions[x] is CallFunction) ==> redirect_calls(st, addresses, callee, n).instructions[x]
            == st.instructions[x],
    decreases n,
{
    if n > 0 {
        lemma_redirect_calls_starts(st, addresses, callee, n - 1, x);
        lemma_redirect_call_starts(redirect_calls(st, addresses, callee, n - 1), addresses[n - 1] as int, callee, x);
    }
}

proof fn lemma_updates_start(st: GeneratorView, updates: Seq<FunctionUpdateView>, n: int, x: int)
    requires
        0 <= x < st.instructions.len(),
        starts_program(st.instructions[x]),
    ensures
        redirect_updates(st, updates, n).instructions.len() == st.instructions.len(),
        starts_program(redirect_updates(st, updates, n).instructions[x]),
        !(st.instructions[x] is CallFunction) ==> redirect_updates(st, updates, n).instructions[x]
            == st.instructions[x],
    decreases n,
{
    if n > 0 {
        lemma_updates_start(st, updates, n - 1, x);
        let before = redirect_updates(st, updates, n - 1);
        match first_with_key(before.calls, spec_hash_of(updates[n - 1].old.function)) {
            Some(i) => {
                let addresses = before.calls[i].1;
                let removed = GeneratorView { calls: before.calls.remove(i), ..before };
                lemma_redirect_calls_starts(
                    removed,
                    addresses,
                    spec_hash_of(updates[n - 1].new.function),
                    addresses.len() as int,
                    x,
                );
            },
            None => {},
        }
    }
}

/// The start of the generation, as `spec_generate_instructions` defines it
pub open spec fn start_of_generation(
    fs: FunctionsView,
    ch: ChangesView,
    cl: Seq<ClusterView>,
    instructions: Seq<InstructionView>,
    calls: Seq<(crate::code::Hash, Seq<usize>)>,
) -> GeneratorView {
    GeneratorView {
        instructions: instructions.push(InstructionView::TriggerEffect { effect: Effect::BuildError }),
        calls,
        jobs: all_seeds(ch, cl, cl.len() as int),
        marks: Seq::new(fs.anonymous.len(), |i: int| false),
        placeholders: Seq::empty(),
        compiled: Seq::empty(),
    }
}

proof fn lemma_run_leaves_main_placeholder(
    fs: FunctionsView,
    ch: ChangesView,
    cl: Seq<ClusterView>,
    instructions: Seq<InstructionView>,
    calls: Seq<(crate::code::Hash, Seq<usize>)>,
)
    ensures
        ({
            let start = start_of_generation(fs, ch, cl, instructions, calls);
            let compiled = run_jobs(fs, ch, cl, start);
            &&& compiled.instructions.len() > instructions.len()
            &&& compiled.instructions.len() <= usize::MAX ==> {
                &&& compiled.instructions[instructions.len() as int] == (InstructionView::TriggerEffect {
                    effect: Effect::BuildError,
                })
                &&& forall|j: int|
                    0 <= j < compiled.placeholders.len() ==> (#[trigger] compiled.placeholders[j]).address
                        > instructions.len()
            }
        }),
{
    let start = start_of_generation(fs, ch, cl, instructions, calls);
    let base = start.instructions;
    assert(keeps_base(base, start)) by {
        assert forall|a: int| 0 <= a < base.len() implies same_or_redirected(base[a], #[trigger] start.instructions[a]) by {}
        lemma_seeds_have_no_placeholder(ch, cl, all_seeds(ch, cl, cl.len() as int), base);
    }
    lemma_run_keeps(fs, ch, cl, base, start);
    let compiled = run_jobs(fs, ch, cl, start);
    if compiled.instructions.len() <= usize::MAX {
        assert(same_or_redirected(base[instructions.len() as int], compiled.instructions[instructions.len() as int]));
    }
}

/// The first instruction that generating appends is where a program starts:
/// a tail call, of `main` where that was compiled, or else an instruction that
/// triggers a build error. Without a function named `main`, it is the latter.
pub proof fn program_starts_at_call_to_main(
    fs: FunctionsView,
    ch: ChangesView,
    cl: Seq<ClusterView>,
    instructions: Seq<InstructionView>,
    calls: Seq<(crate::code::Hash, Seq<usize>)>,
)
    requires
        spec_generate_instructions(fs, ch, cl, instructions, calls).0.len() <= usize::MAX,
    ensures
        spec_generate_instructions(fs, ch, cl, instructions, calls).0.len() > instructions.len(),
        starts_program(spec_generate_instructions(fs, ch, cl, instructions, calls).0[instructions.len() as int]),
        fs.named_position("main"@) is None ==> spec_generate_instructions(fs, ch, cl, instructions, calls).0[
            instructions.len() as int] == (InstructionView::TriggerEffect { effect: Effect::BuildError }),
{
    let main_address = instructions.len() as int;
    let start = start_of_generation(fs, ch, cl, instructions, calls);
    lemma_run_leaves_main_placeholder(fs, ch, cl, instructions, calls);
    let compiled = run_jobs(fs, ch, cl, start);
    let with_main = match fs.named_position("main"@) {
        Some(i) => resolve_call(compiled, spec_hash_of(fs.named[i].inner), main_address, true),
        None => compiled,
    };
    assert(with_main.instructions.len() == compiled.instructions.len());
    assert(with_main.placeholders == compiled.placeholders);
    let resolved = resolve_placeholders(with_main, compiled.placeholders, compiled.placeholders.len() as int);
    if compiled.instructions.len() <= usize::MAX {
        assert(starts_program(with_main.instructions[main_address]));
        assert(fs.named_position("main"@) is None ==> with_main.instructions[main_address]
            == compiled.instructions[main_address]);
        assert forall|j: int| 0 <= j < compiled.placeholders.len() implies (#[trigger] compiled.placeholders[j]).address
            != main_address by {}
        lemma_placeholders_elsewhere(with_main, compiled.placeholders, compiled.placeholders.len() as int, main_address);
        lemma_updates_start(resolved, ch.updated, ch.updated.len() as int, main_address);
    } else {
        // Then the result would not fit either.
        lemma_placeholders_len(with_main, compiled.placeholders, compiled.placeholders.len() as int);
        lemma_updates_keep(instructions, resolved, ch.updated, ch.updated.len() as int);
    }
}

proof fn lemma_placeholders_len(st: GeneratorView, placeholders: Seq<Placeholder>, n: int)
    ensures
        resolve_placeholders(st, placeholders, n).instructions.len() == st.instructions.len(),
    decreases n,
{
    if n > 0 {
        lemma_placeholders_len(st, placeholders, n - 1);
    }
}

/// The names of the identifier parameters among `parameters`, in order
pub open spec fn identifier_names(parameters: Seq<PatternView>) -> Seq<Seq<char>>
    decreases parameters.len(),
{
    if parameters.len() == 0 {
        Seq::empty()
    } else {
        (match parameters[0] {
            PatternView::Identifier { name } => seq![name],
            PatternView::Literal { .. } => Seq::empty(),
        }) + identifier_names(parameters.drop_first())
    }
}

/// Whether `after` starts with the instructions of `before`, unchanged
pub open spec fn extends(before: Seq<InstructionView>, after: Seq<InstructionView>) -> bool {
    &&& after.len() >= before.len()
    &&& forall|a: int| 0 <= a < before.len() ==> #[trigger] after[a] == before[a]
}

proof fn lemma_bind_from_binds(st: GeneratorView, parameters: Seq<PatternView>, i: int)
    requires
        0 <= i <= parameters.len(),
    ensures
        ({
            let (after, first) = bind_from(st, parameters, i);
            let names = identifier_names(parameters.subrange(i, parameters.len() as int));
            let n = names.len();
            &&& after.instructions.len() == st.instructions.len() + n
            &&& extends(st.instructions, after.instructions)
            &&& forall|k: int|
                0 <= k < n ==> #[trigger] after.instructions[st.instructions.len() + k]
                    == (InstructionView::Bind { name: names[n - 1 - k] })
            &&& first == if n > 0 {
                Some(st.instructions.len() as usize)
            } else {
                None
            }
        }),
    decreases parameters.len() - i,
{
    if i < parameters.len() {
        lemma_bind_from_binds(st, parameters, i + 1);
        let rest = parameters.subrange(i + 1, parameters.len() as int);
        let here = parameters.subrange(i, parameters.len() as int);
        assert(here.drop_first() =~= rest);
        assert(here[0] == parameters[i]);
        let names = identifier_names(here);
        let later = identifier_names(rest);
        let (before, first) = bind_from(st, parameters, i + 1);
        let (after, _) = bind_from(st, parameters, i);
        match parameters[i] {
            PatternView::Identifier { name } => {
                assert(names == seq![name] + later);
                assert forall|k: int| 0 <= k < names.len() implies #[trigger] after.instructions[st.instructions.len() + k]
                    == (InstructionView::Bind { name: names[names.len() - 1 - k] }) by {
                    if k < later.len() {
                        assert(after.instructions[st.instructions.len() + k] == before.instructions[st.instructions.len() + k]);
                        assert(names[names.len() - 1 - k] == later[later.len() - 1 - k]);
                    } else {
                        assert(names[names.len() - 1 - k] == name);
                    }
                }
                assert forall|a: int| 0 <= a < st.instructions.len() implies #[trigger] after.instructions[a]
                    == st.instructions[a] by {
                    assert(after.instructions[a] == before.instructions[a]);
                }
            },
            PatternView::Literal { .. } => {
                assert(names =~= later);
            },
        }
    } else {
        assert(identifier_names(parameters.subrange(i, parameters.len() as int)) =~= Seq::<Seq<char>>::empty()) by {
            assert(parameters.subrange(i, parameters.len() as int).len() == 0);
        }
    }
}

proof fn lemma_expression_extends(
    fs: FunctionsView,
    ch: ChangesView,
    cl: Seq<ClusterView>,
    st: GeneratorView,
    job: Job,
    b: int,
    body: Seq<ExpressionView>,
    k: int,
)
    ensures
        extends(st.instructions, compile_expression(fs, ch, cl, st, job, b, body, k).0.instructions),
{
    let after = compile_expression(fs, ch, cl, st, job, b, body, k).0;
    assert forall|a: int| 0 <= a < st.instructions.len() implies #[trigger] after.instructions[a]
        == st.instructions[a] by {
        match body[k] {
            ExpressionView::CallToHostFunction { number } => {
                let first = push_instruction(st, InstructionView::Push { value: Value(number as i32) });
                assert(first.instructions[a] == st.instructions[a]);
            },
            _ => {},
        }
    }
}

proof fn lemma_body_extends(
    fs: FunctionsView,
    ch: ChangesView,
    cl: Seq<ClusterView>,
    st: GeneratorView,
    job: Job,
    b: int,
    body: Seq<ExpressionView>,
    k: int,
)
    ensures
        extends(st.instructions, compile_body(fs, ch, cl, st, job, b, body, k).0.instructions),
    decreases k,
{
    if k > 0 {
        lemma_body_extends(fs, ch, cl, st, job, b, body, k - 1);
        let before = compile_body(fs, ch, cl, st, job, b, body, k - 1).0;
        lemma_expression_extends(fs, ch, cl, before, job, b, body, k - 1);
        let after = compile_body(fs, ch, cl, st, job, b, body, k).0;
        assert forall|a: int| 0 <= a < st.instructions.len() implies #[trigger] after.instructions[a]
            == st.instructions[a] by {
            assert(after.instructions[a] == before.instructions[a]);
        }
    }
}

/// A branch starts by binding its identifier parameters, the last one
/// first, since the last argument is on top of the stack: the `k`-th
/// instruction of the branch binds the parameter that is `k`-th from the end,
/// and the branch starts at the first binding, if there is one. Its last
/// instruction returns.
pub proof fn branch_binds_parameters_last_first(
    fs: FunctionsView,
    ch: ChangesView,
    cl: Seq<ClusterView>,
    st: GeneratorView,
    job: Job,
    b: int,
)
    ensures
        ({
            let (after, branch) = compile_branch(fs, ch, cl, st, job, b);
            let parameters = job_function(fs, ch, job.source).branches[b].parameters;
            let names = identifier_names(parameters);
            let n = names.len();
            &&& after.instructions.len() > st.instructions.len() + n
            &&& extends(st.instructions, after.instructions)
            &&& forall|k: int|
                0 <= k < n ==> #[trigger] after.instructions[st.instructions.len() + k]
                    == (InstructionView::Bind { name: names[n - 1 - k] })
            &&& n > 0 ==> branch.start == st.instructions.len() as usize
            &&& branch.parameters == parameters
            &&& after.instructions.last() == InstructionView::Return
        }),
{
    let branch = job_function(fs, ch, job.source).branches[b];
    let parameters = branch.parameters;
    assert(parameters.subrange(0, parameters.len() as int) =~= parameters);
    lemma_bind_from_binds(st, parameters, 0);
    let (bound, _) = bind_from(st, parameters, 0);
    lemma_body_extends(fs, ch, cl, bound, job, b, branch.body, branch.body.len() as int);
    let compiled = compile_body(fs, ch, cl, bound, job, b, branch.body, branch.body.len() as int).0;
    let (after, _) = compile_branch(fs, ch, cl, st, job, b);
    let names = identifier_names(parameters);
    assert forall|k: int| 0 <= k < names.len() implies #[trigger] after.instructions[st.instructions.len() + k]
        == (InstructionView::Bind { name: names[names.len() - 1 - k] }) by {
        assert(after.instructions[st.instructions.len() + k] == compiled.instructions[st.instructions.len() + k]);
        assert(compiled.instructions[st.instructions.len() + k] == bound.instructions[st.instructions.len() + k]);
    }
    assert forall|a: int| 0 <= a < st.instructions.len() implies #[trigger] after.instructions[a]
        == st.instructions[a] by {
        assert(after.instructions[a] == compiled.instructions[a]);
        assert(compiled.instructions[a] == bound.instructions[a]);
    }
}

} // verus!
