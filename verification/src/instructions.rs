//! # The instructions that the runtime executes

use vstd::prelude::*;

use crate::code::{Pattern, PatternView, Value};
use crate::intrinsics::IntrinsicFunction;

verus! {

/// # An effect that an instruction triggers
///
/// The runtime pauses on an effect and hands it to whoever runs it: the
/// developer tools, or the host.
#[derive(Clone, Copy, Debug, PartialEq, Eq, Structural)]
pub enum Effect {
    /// # A breakpoint was hit
    Breakpoint,
    /// # The code could not be built; this stands where that code would be
    BuildError,
    /// # The compiler left an instruction that it should have replaced
    CompilerBug,
    /// # A host function is called; its number is on top of the stack
    Host,
}

/// # A branch of a function, as the runtime knows it
///
/// Its code starts at the instruction at `start`.
#[derive(Debug)]
pub struct RuntimeBranch {
    pub parameters: Vec<Pattern>,
    pub start: usize,
}

/// # A function, as the runtime knows it
#[derive(Debug)]
pub struct RuntimeFunction {
    pub branches: Vec<RuntimeBranch>,
}

/// # An instruction of the runtime
#[derive(Debug)]
pub enum Instruction {
    AddS8,
    AddS32,
    AddU8,
    AddU8Wrap,
    /// # Bind the value on top of the stack to a name
    Bind { name: String },
    /// # Put the value bound to a name on the stack
    BindingEvaluate { name: String },
    /// # Call a function
    CallFunction { function: RuntimeFunction, is_tail_call: bool },
    ConvertS32ToS8,
    Copy,
    DivS32,
    DivU8,
    Drop,
    Eq,
    /// # Evaluate the anonymous function on top of the stack
    Eval { is_tail_call: bool },
    GreaterS8,
    GreaterS32,
    GreaterU8,
    LogicalAnd,
    LogicalNot,
    /// # Create an anonymous function and put it on the stack
    ///
    /// The function captures the values bound to the names of its
    /// environment; no name occurs twice in it.
    MakeAnonymousFunction { branches: Vec<RuntimeBranch>, environment: Vec<String> },
    MulS32,
    MulU8Wrap,
    NegS32,
    Nop,
    /// # Put a value on the stack
    Push { value: Value },
    RemainderS32,
    /// # Return from the current function
    Return,
    SubS32,
    SubU8,
    SubU8Wrap,
    /// # Trigger an effect
    TriggerEffect { effect: Effect },
}

/// # The mathematical model of a [`RuntimeBranch`]
pub ghost struct RuntimeBranchView {
    pub parameters: Seq<PatternView>,
    pub start: usize,
}

/// # The mathematical model of an [`Instruction`]
pub ghost enum InstructionView {
    AddS8,
    AddS32,
    AddU8,
    AddU8Wrap,
    Bind { name: Seq<char> },
    BindingEvaluate { name: Seq<char> },
    CallFunction { function: Seq<RuntimeBranchView>, is_tail_call: bool },
    ConvertS32ToS8,
    Copy,
    DivS32,
    DivU8,
    Drop,
    Eq,
    Eval { is_tail_call: bool },
    GreaterS8,
    GreaterS32,
    GreaterU8,
    LogicalAnd,
    LogicalNot,
    MakeAnonymousFunction { branches: Seq<RuntimeBranchView>, environment: Set<Seq<char>> },
    MulS32,
    MulU8Wrap,
    NegS32,
    Nop,
    Push { value: Value },
    RemainderS32,
    Return,
    SubS32,
    SubU8,
    SubU8Wrap,
    TriggerEffect { effect: Effect },
}

impl DeepView for RuntimeBranch {
    type V = RuntimeBranchView;

    open spec fn deep_view(&self) -> RuntimeBranchView {
        RuntimeBranchView { parameters: self.parameters.deep_view(), start: self.start }
    }
}

impl DeepView for RuntimeFunction {
    type V = Seq<RuntimeBranchView>;

    open spec fn deep_view(&self) -> Seq<RuntimeBranchView> {
        self.branches.deep_view()
    }
}

impl DeepView for Instruction {
    type V = InstructionView;

    open spec fn deep_view(&self) -> InstructionView {
        match self {
            Instruction::AddS8 => InstructionView::AddS8,
            Instruction::AddS32 => InstructionView::AddS32,
            Instruction::AddU8 => InstructionView::AddU8,
            Instruction::AddU8Wrap => InstructionView::AddU8Wrap,
            Instruction::Bind { name } => InstructionView::Bind { name: name@ },
            Instruction::BindingEvaluate { name } => InstructionView::BindingEvaluate { name: name@ },
            Instruction::CallFunction { function, is_tail_call } => InstructionView::CallFunction {
                function: function.deep_view(),
                is_tail_call: *is_tail_call,
            },
            Instruction::ConvertS32ToS8 => InstructionView::ConvertS32ToS8,
            Instruction::Copy => InstructionView::Copy,
            Instruction::DivS32 => InstructionView::DivS32,
            Instruction::DivU8 => InstructionView::DivU8,
            Instruction::Drop => InstructionView::Drop,
            Instruction::Eq => InstructionView::Eq,
            Instruction::Eval { is_tail_call } => InstructionView::Eval { is_tail_call: *is_tail_call },
            Instruction::GreaterS8 => InstructionView::GreaterS8,
            Instruction::GreaterS32 => InstructionView::GreaterS32,
            Instruction::GreaterU8 => InstructionView::GreaterU8,
            Instruction::LogicalAnd => InstructionView::LogicalAnd,
            Instruction::LogicalNot => InstructionView::LogicalNot,
            Instruction::MakeAnonymousFunction { branches, environment } =>
                InstructionView::MakeAnonymousFunction {
                    branches: branches.deep_view(),
                    environment: names_of(environment@),
                },
            Instruction::MulS32 => InstructionView::MulS32,
            Instruction::MulU8Wrap => InstructionView::MulU8Wrap,
            Instruction::NegS32 => InstructionView::NegS32,
            Instruction::Nop => InstructionView::Nop,
            Instruction::Push { value } => InstructionView::Push { value: *value },
            Instruction::RemainderS32 => InstructionView::RemainderS32,
            Instruction::Return => InstructionView::Return,
            Instruction::SubS32 => InstructionView::SubS32,
            Instruction::SubU8 => InstructionView::SubU8,
            Instruction::SubU8Wrap => InstructionView::SubU8Wrap,
            Instruction::TriggerEffect { effect } => InstructionView::TriggerEffect { effect: *effect },
        }
    }
}

/// The names in `names`, as a set
pub open spec fn names_of(names: Seq<String>) -> Set<Seq<char>> {
    Set::new(|name: Seq<char>| has_name(names, name))
}

/// Whether `name` is one of `names`
pub open spec fn has_name(names: Seq<String>, name: Seq<char>) -> bool {
    exists|i: int| 0 <= i < names.len() && (#[trigger] names[i])@ == name
}

/// Whether no name occurs twice in `names`
pub open spec fn distinct_names(names: Seq<String>) -> bool {
    forall|i: int, j: int| 0 <= i < j < names.len() ==> (#[trigger] names[i])@ != (#[trigger] names[j])@
}

/// The instruction that a call to `intrinsic` compiles to
pub open spec fn spec_intrinsic_to_instruction(
    intrinsic: IntrinsicFunction,
    is_tail_call: bool,
) -> InstructionView {
    match intrinsic {
        IntrinsicFunction::AddS8 => InstructionView::AddS8,
        IntrinsicFunction::AddS32 => InstructionView::AddS32,
        IntrinsicFunction::AddU8 => InstructionView::AddU8,
        IntrinsicFunction::AddU8Wrap => InstructionView::AddU8Wrap,
        IntrinsicFunction::And => InstructionView::LogicalAnd,
        IntrinsicFunction::Brk => InstructionView::TriggerEffect { effect: Effect::Breakpoint },
        IntrinsicFunction::Copy => InstructionView::Copy,
        IntrinsicFunction::DivS32 => InstructionView::DivS32,
        IntrinsicFunction::DivU8 => InstructionView::DivU8,
        IntrinsicFunction::Drop => InstructionView::Drop,
        IntrinsicFunction::Eq => InstructionView::Eq,
        IntrinsicFunction::Eval => InstructionView::Eval { is_tail_call },
        IntrinsicFunction::GreaterS8 => InstructionView::GreaterS8,
        IntrinsicFunction::GreaterS32 => InstructionView::GreaterS32,
        IntrinsicFunction::GreaterU8 => InstructionView::GreaterU8,
        IntrinsicFunction::MulS32 => InstructionView::MulS32,
        IntrinsicFunction::MulU8Wrap => InstructionView::MulU8Wrap,
        IntrinsicFunction::NegS32 => InstructionView::NegS32,
        IntrinsicFunction::Nop => InstructionView::Nop,
        IntrinsicFunction::Not => InstructionView::LogicalNot,
        IntrinsicFunction::RemainderS32 => InstructionView::RemainderS32,
        IntrinsicFunction::S32ToS8 => InstructionView::ConvertS32ToS8,
        IntrinsicFunction::SubS32 => InstructionView::SubS32,
        IntrinsicFunction::SubU8 => InstructionView::SubU8,
        IntrinsicFunction::SubU8Wrap => InstructionView::SubU8Wrap,
    }
}

/// # The instruction that a call to an intrinsic compiles to
///
/// Only `eval` can be a tail call; every other intrinsic is a single
/// instruction that does not call anything.
pub fn intrinsic_to_instruction(intrinsic: &IntrinsicFunction, is_tail_call: bool) -> (r: Instruction)
    ensures
        r.deep_view() == spec_intrinsic_to_instruction(*intrinsic, is_tail_call),
{
    match intrinsic {
        IntrinsicFunction::AddS8 => Instruction::AddS8,
        IntrinsicFunction::AddS32 => Instruction::AddS32,
        IntrinsicFunction::AddU8 => Instruction::AddU8,
        IntrinsicFunction::AddU8Wrap => Instruction::AddU8Wrap,
        IntrinsicFunction::And => Instruction::LogicalAnd,
        IntrinsicFunction::Brk => Instruction::TriggerEffect { effect: Effect::Breakpoint },
        IntrinsicFunction::Copy => Instruction::Copy,
        IntrinsicFunction::DivS32 => Instruction::DivS32,
        IntrinsicFunction::DivU8 => Instruction::DivU8,
        IntrinsicFunction::Drop => Instruction::Drop,
        IntrinsicFunction::Eq => Instruction::Eq,
        IntrinsicFunction::Eval => Instruction::Eval { is_tail_call },
        IntrinsicFunction::GreaterS8 => Instruction::GreaterS8,
        IntrinsicFunction::GreaterS32 => Instruction::GreaterS32,
        IntrinsicFunction::GreaterU8 => Instruction::GreaterU8,
        IntrinsicFunction::MulS32 => Instruction::MulS32,
        IntrinsicFunction::MulU8Wrap => Instruction::MulU8Wrap,
        IntrinsicFunction::NegS32 => Instruction::NegS32,
        IntrinsicFunction::Nop => Instruction::Nop,
        IntrinsicFunction::Not => Instruction::LogicalNot,
        IntrinsicFunction::RemainderS32 => Instruction::RemainderS32,
        IntrinsicFunction::S32ToS8 => Instruction::ConvertS32ToS8,
        IntrinsicFunction::SubS32 => Instruction::SubS32,
        IntrinsicFunction::SubU8 => Instruction::SubU8,
        IntrinsicFunction::SubU8Wrap => Instruction::SubU8Wrap,
    }
}

/// # A copy of a list of patterns
pub fn copy_patterns(patterns: &Vec<Pattern>) -> (r: Vec<Pattern>)
    ensures
        r.deep_view() == patterns.deep_view(),
{
    let mut r: Vec<Pattern> = Vec::new();
    let mut i: usize = 0;
    while i < patterns.len()
        invariant
            i <= patterns.len(),
            r.deep_view() == patterns.deep_view().take(i as int),
        decreases patterns.len() - i,
    {
        let ghost before = r.deep_view();
        r.push(patterns[i].copied());
        assert(r.deep_view() =~= before.push(patterns@[i as int].deep_view()));
        assert(patterns.deep_view().take(i + 1) =~= patterns.deep_view().take(i as int).push(
            patterns@[i as int].deep_view(),
        ));
        i = i + 1;
    }
    assert(patterns.deep_view().take(i as int) =~= patterns.deep_view());
    r
}

/// # A copy of a list of runtime branches
pub fn copy_branches(branches: &Vec<RuntimeBranch>) -> (r: Vec<RuntimeBranch>)
    ensures
        r.deep_view() == branches.deep_view(),
{
    let mut r: Vec<RuntimeBranch> = Vec::new();
    let mut i: usize = 0;
    while i < branches.len()
        invariant
            i <= branches.len(),
            r.deep_view() == branches.deep_view().take(i as int),
        decreases branches.len() - i,
    {
        let branch = RuntimeBranch {
            parameters: copy_patterns(&branches[i].parameters),
            start: branches[i].start,
        };
        let ghost before = r.deep_view();
        r.push(branch);
        assert(r.deep_view() =~= before.push(branches@[i as int].deep_view()));
        assert(branches.deep_view().take(i + 1) =~= branches.deep_view().take(i as int).push(
            branches@[i as int].deep_view(),
        ));
        i = i + 1;
    }
    assert(branches.deep_view().take(i as int) =~= branches.deep_view());
    r
}

/// # A copy of a list of names
pub fn copy_names(names: &Vec<String>) -> (r: Vec<String>)
    ensures
        r@.len() == names@.len(),
        forall|i: int| 0 <= i < names@.len() ==> (#[trigger] r@[i])@ == names@[i]@,
{
    let mut r: Vec<String> = Vec::new();
    let mut i: usize = 0;
    while i < names.len()
        invariant
            i <= names.len(),
            r@.len() == i,
            forall|j: int| 0 <= j < i ==> (#[trigger] r@[j])@ == names@[j]@,
        decreases names.len() - i,
    {
        r.push(names[i].clone());
        i = i + 1;
    }
    r
}

impl Instruction {
    /// # A copy of this instruction
    pub fn copied(&self) -> (r: Instruction)
        ensures
            r.deep_view() == self.deep_view(),
    {
        match self {
            Instruction::AddS8 => Instruction::AddS8,
            Instruction::AddS32 => Instruction::AddS32,
            Instruction::AddU8 => Instruction::AddU8,
            Instruction::AddU8Wrap => Instruction::AddU8Wrap,
            Instruction::Bind { name } => Instruction::Bind { name: name.clone() },
            Instruction::BindingEvaluate { name } => Instruction::BindingEvaluate { name: name.clone() },
            Instruction::CallFunction { function, is_tail_call } => Instruction::CallFunction {
                function: RuntimeFunction { branches: copy_branches(&function.branches) },
                is_tail_call: *is_tail_call,
            },
            Instruction::ConvertS32ToS8 => Instruction::ConvertS32ToS8,
            Instruction::Copy => Instruction::Copy,
            Instruction::DivS32 => Instruction::DivS32,
            Instruction::DivU8 => Instruction::DivU8,
            Instruction::Drop => Instruction::Drop,
            Instruction::Eq => Instruction::Eq,
            Instruction::Eval { is_tail_call } => Instruction::Eval { is_tail_call: *is_tail_call },
            Instruction::GreaterS8 => Instruction::GreaterS8,
            Instruction::GreaterS32 => Instruction::GreaterS32,
            Instruction::GreaterU8 => Instruction::GreaterU8,
            Instruction::LogicalAnd => Instruction::LogicalAnd,
            Instruction::LogicalNot => Instruction::LogicalNot,
            Instruction::MakeAnonymousFunction { branches, environment } => {
                let copy = copy_names(environment);
                assert(names_of(copy@) =~= names_of(environment@)) by {
                    assert forall|name: Seq<char>| has_name(copy@, name) == has_name(environment@, name) by {
                        if has_name(copy@, name) {
                            let i = choose|i: int| 0 <= i < copy@.len() && (#[trigger] copy@[i])@ == name;
                            assert(environment@[i]@ == name);
                        }
                        if has_name(environment@, name) {
                            let i = choose|i: int| 0 <= i < environment@.len() && (#[trigger] environment@[i])@ == name;
                            assert(copy@[i]@ == name);
                        }
                    }
                }
                Instruction::MakeAnonymousFunction { branches: copy_branches(branches), environment: copy }
            },
            Instruction::MulS32 => Instruction::MulS32,
            Instruction::MulU8Wrap => Instruction::MulU8Wrap,
            Instruction::NegS32 => Instruction::NegS32,
            Instruction::Nop => Instruction::Nop,
            Instruction::Push { value } => Instruction::Push { value: *value },
            Instruction::RemainderS32 => Instruction::RemainderS32,
            Instruction::Return => Instruction::Return,
            Instruction::SubS32 => Instruction::SubS32,
            Instruction::SubU8 => Instruction::SubU8,
            Instruction::SubU8Wrap => Instruction::SubU8Wrap,
            Instruction::TriggerEffect { effect } => Instruction::TriggerEffect { effect: *effect },
        }
    }
}

/// # A copy of a list of instructions
pub fn copy_instructions(instructions: &Vec<Instruction>) -> (r: Vec<Instruction>)
    ensures
        r.deep_view() == instructions.deep_view(),
{
    let mut r: Vec<Instruction> = Vec::new();
    let mut i: usize = 0;
    while i < instructions.len()
        invariant
            i <= instructions.len(),
            r.deep_view() == instructions.deep_view().take(i as int),
        decreases instructions.len() - i,
    {
        let ghost before = r.deep_view();
        r.push(instructions[i].copied());
        assert(r.deep_view() =~= before.push(instructions@[i as int].deep_view()));
        assert(instructions.deep_view().take(i + 1) =~= instructions.deep_view().take(i as int).push(
            instructions@[i as int].deep_view(),
        ));
        i = i + 1;
    }
    assert(instructions.deep_view().take(i as int) =~= instructions.deep_view());
    r
}

} // verus!
