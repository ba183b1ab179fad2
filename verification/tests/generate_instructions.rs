use capi_compiler::code::{Pattern, Value};
use capi_compiler::host::{HostFunction, HostFunctionList};
use capi_compiler::instructions::{Effect, Instruction, RuntimeBranch};
use capi_compiler::parse::parse;
use capi_compiler::passes::build_call_graph::order_functions_by_dependencies;
use capi_compiler::passes::detect_changes::detect_changes;
use capi_compiler::passes::determine_tail_positions::determine_tail_positions;
use capi_compiler::passes::generate_instructions::generate_instructions_checked;
use capi_compiler::passes::resolve_most_identifiers::resolve_most_identifiers;
use capi_compiler::passes::resolve_non_recursive_functions::{resolve_non_recursive_functions, StableFunctions};
use capi_compiler::passes::resolve_recursive_calls::resolve_recursive_calls;
use capi_compiler::passes::resolve_recursive_local_functions::resolve_recursive_local_functions;
use capi_compiler::tokens::tokenize;
use capi_compiler::types::{ConcreteSignature, Type};

fn test_host() -> HostFunctionList {
    HostFunctionList {
        functions: vec![HostFunction {
            name: String::from("number_to_nothing"),
            number: 0,
            signature: ConcreteSignature { inputs: vec![Type::Number], outputs: vec![] },
        }],
    }
}

struct Compiled {
    functions: StableFunctions,
    instructions: Vec<Instruction>,
    calls: Vec<(capi_compiler::code::Hash, Vec<usize>)>,
}

fn compile_update(old: Option<StableFunctions>, source: &str, instructions: Vec<Instruction>, calls: Vec<(capi_compiler::code::Hash, Vec<usize>)>) -> Compiled {
    let mut functions = parse(tokenize(source));
    determine_tail_positions(&mut functions);
    resolve_most_identifiers(&mut functions, &test_host());
    let ordered = order_functions_by_dependencies(&functions);
    resolve_recursive_calls(&mut functions, &ordered);
    resolve_recursive_local_functions(&mut functions, &ordered);
    let functions = resolve_non_recursive_functions(functions, &ordered);
    let changes = detect_changes(old, functions.functions());
    let mut instructions = instructions;
    let mut calls = calls;
    assert!(generate_instructions_checked(&functions, &ordered, &changes, &mut instructions, &mut calls));
    Compiled { functions, instructions, calls }
}

fn compile(source: &str) -> Compiled {
    compile_update(None, source, Vec::new(), Vec::new())
}

fn starts(branches: &[RuntimeBranch]) -> Vec<usize> {
    branches.iter().map(|branch| branch.start).collect()
}

fn is_push(instruction: &Instruction, value: i32) -> bool {
    matches!(instruction, Instruction::Push { value: Value(v) } if *v == value)
}

fn call_target(instruction: &Instruction) -> Option<(Vec<usize>, bool)> {
    match instruction {
        Instruction::CallFunction { function, is_tail_call } => Some((starts(&function.branches), *is_tail_call)),
        _ => None,
    }
}

#[test]
fn generate_call_to_main_and_its_body() {
    let compiled = compile(r"
        main: fn
            \ ->
                1
        end
    ");
    let instructions = &compiled.instructions;
    assert_eq!(instructions.len(), 3);
    assert_eq!(call_target(&instructions[0]), Some((vec![1], true)));
    assert!(is_push(&instructions[1], 1));
    assert!(matches!(instructions[2], Instruction::Return));
    assert!(compiled.calls.is_empty());
}

#[test]
fn generate_bindings_host_calls_and_intrinsics() {
    let compiled = compile(r"
        main: fn
            \ 0 ->
                7
            \ a ->
                a number_to_nothing
                2 3 add_s32
        end
    ");
    let instructions = &compiled.instructions;
    assert_eq!(instructions.len(), 11);
    assert_eq!(call_target(&instructions[0]), Some((vec![1, 3], true)));
    assert!(is_push(&instructions[1], 7));
    assert!(matches!(instructions[2], Instruction::Return));
    assert!(matches!(&instructions[3], Instruction::Bind { name } if name == "a"));
    assert!(matches!(&instructions[4], Instruction::BindingEvaluate { name } if name == "a"));
    assert!(is_push(&instructions[5], 0));
    assert!(matches!(instructions[6], Instruction::TriggerEffect { effect: Effect::Host }));
    assert!(is_push(&instructions[7], 2));
    assert!(is_push(&instructions[8], 3));
    assert!(matches!(instructions[9], Instruction::AddS32));
    assert!(matches!(instructions[10], Instruction::Return));
    match &instructions[0] {
        Instruction::CallFunction { function, .. } => {
            assert!(matches!(function.branches[0].parameters[0], Pattern::Literal { value: Value(0) }));
            assert!(matches!(&function.branches[1].parameters[0], Pattern::Identifier { name } if name == "a"));
        },
        _ => panic!("expected a call to `main`"),
    }
}

#[test]
fn generate_calls_between_functions() {
    let compiled = compile(r"
        main: fn
            \ ->
                g
        end

        g: fn
            \ ->
                1
        end
    ");
    let instructions = &compiled.instructions;
    assert_eq!(instructions.len(), 5);
    assert_eq!(call_target(&instructions[0]), Some((vec![1], true)));
    assert_eq!(call_target(&instructions[1]), Some((vec![3], true)));
    assert!(matches!(instructions[2], Instruction::Return));
    assert!(is_push(&instructions[3], 1));
    assert!(matches!(instructions[4], Instruction::Return));

    let g = capi_compiler::code::Hash::new(&compiled.functions.functions().named[1].inner);
    assert_eq!(compiled.calls.len(), 1);
    assert_eq!(compiled.calls[0].0, g);
    assert_eq!(compiled.calls[0].1, vec![1]);
}

#[test]
fn generate_anonymous_function_after_its_parent() {
    let compiled = compile(r"
        main: fn
            \ ->
                fn
                    \ ->
                        1
                end
                eval
        end
    ");
    let instructions = &compiled.instructions;
    assert_eq!(instructions.len(), 6);
    assert_eq!(call_target(&instructions[0]), Some((vec![1], true)));
    match &instructions[1] {
        Instruction::MakeAnonymousFunction { branches, environment } => {
            assert_eq!(starts(branches), vec![4]);
            assert!(environment.is_empty());
        },
        _ => panic!("expected the instruction that makes the anonymous function"),
    }
    assert!(matches!(instructions[2], Instruction::Eval { is_tail_call: true }));
    assert!(matches!(instructions[3], Instruction::Return));
    assert!(is_push(&instructions[4], 1));
    assert!(matches!(instructions[5], Instruction::Return));
}

#[test]
fn generate_anonymous_function_that_uses_binding_of_parent() {
    let compiled = compile(r"
        main: fn
            \ x ->
                fn
                    \ ->
                        x
                end
                eval
        end
    ");
    let instructions = &compiled.instructions;
    assert!(matches!(&instructions[1], Instruction::Bind { name } if name == "x"));
    match &instructions[2] {
        Instruction::MakeAnonymousFunction { branches, environment } => {
            assert_eq!(starts(branches), vec![5]);
            assert_eq!(environment, &vec![String::from("x")]);
        },
        _ => panic!("expected the instruction that makes the anonymous function"),
    }
    assert!(matches!(&instructions[5], Instruction::BindingEvaluate { name } if name == "x"));
}

#[test]
fn generate_environment_of_nested_functions() {
    let compiled = compile(r"
        main: fn
            \ x y ->
                fn
                    \ y ->
                        fn
                            \ ->
                                x y
                        end
                        eval
                end
                eval
        end
    ");
    let environments: Vec<Vec<String>> = compiled
        .instructions
        .iter()
        .filter_map(|instruction| match instruction {
            Instruction::MakeAnonymousFunction { environment, .. } => Some(environment.clone()),
            _ => None,
        })
        .collect();
    // The outer function captures `x`; its own parameter binds `y`. The inner
    // function captures both.
    assert_eq!(environments.len(), 2);
    assert_eq!(environments[0], vec![String::from("x")]);
    let mut inner = environments[1].clone();
    inner.sort();
    assert_eq!(inner, vec![String::from("x"), String::from("y")]);
}

#[test]
fn generate_build_error_without_main_and_for_unknown_identifier() {
    let compiled = compile(r"
        f: fn
            \ ->
                unknown
        end
    ");
    let instructions = &compiled.instructions;
    assert_eq!(instructions.len(), 3);
    assert!(matches!(instructions[0], Instruction::TriggerEffect { effect: Effect::BuildError }));
    assert!(matches!(instructions[1], Instruction::TriggerEffect { effect: Effect::BuildError }));
    assert!(matches!(instructions[2], Instruction::Return));
}

const OLD: &str = r"
    main: fn
        \ ->
            g
    end

    g: fn
        \ ->
            2
    end
";

const NEW: &str = r"
    main: fn
        \ ->
            g
    end

    g: fn
        \ ->
            3
    end
";

#[test]
fn generate_redirects_calls_to_updated_function() {
    let first = compile(OLD);
    let old_functions = compile(OLD).functions;
    let second = compile_update(Some(old_functions), NEW, first.instructions, first.calls);
    let instructions = &second.instructions;

    // The earlier instructions stay where they were.
    assert!(matches!(instructions[2], Instruction::Return));
    assert!(is_push(&instructions[3], 2));
    assert!(matches!(instructions[4], Instruction::Return));

    // The second compilation appends another call to `main`, then the new
    // `main`, then the new `g`, which starts at address 8.
    assert_eq!(instructions.len(), 10);
    assert_eq!(call_target(&instructions[5]), Some((vec![6], true)));
    assert!(is_push(&instructions[8], 3));

    // The old call to `g`, at address 1, now calls the new version of `g`.
    assert_eq!(call_target(&instructions[1]), Some((vec![8], true)));

    let old_g = capi_compiler::code::Hash::new(&compile(OLD).functions.functions().named[1].inner);
    assert!(second.calls.iter().all(|(hash, _)| *hash != old_g));
}

#[test]
fn generate_refuses_to_redirect_a_recorded_address_that_holds_no_call() {
    let first = compile(OLD);
    let old_g = capi_compiler::code::Hash::new(&compile(OLD).functions.functions().named[1].inner);
    // Address 2 holds a return, not a call.
    let calls = vec![(old_g, vec![2])];

    let mut functions = parse(tokenize(NEW));
    determine_tail_positions(&mut functions);
    resolve_most_identifiers(&mut functions, &test_host());
    let ordered = order_functions_by_dependencies(&functions);
    resolve_recursive_calls(&mut functions, &ordered);
    resolve_recursive_local_functions(&mut functions, &ordered);
    let functions = resolve_non_recursive_functions(functions, &ordered);
    let changes = detect_changes(Some(compile(OLD).functions), functions.functions());

    let mut instructions = first.instructions;
    let mut calls_by_function = calls;
    let done = generate_instructions_checked(&functions, &ordered, &changes, &mut instructions, &mut calls_by_function);
    assert!(!done);
    assert_eq!(instructions.len(), 5);
    assert_eq!(calls_by_function.len(), 1);
    assert_eq!(calls_by_function[0].1, vec![2]);
}
