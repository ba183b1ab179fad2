use capi_compiler::call_graph::OrderedFunctions;
use capi_compiler::code::{Expression, Functions};
use capi_compiler::host::NoHost;
use capi_compiler::location::{BranchIndex, BranchLocation, FunctionIndexInRootContext, FunctionLocation};
use capi_compiler::parse::parse;
use capi_compiler::passes::build_call_graph::order_functions_by_dependencies;
use capi_compiler::passes::determine_tail_positions::determine_tail_positions;
use capi_compiler::passes::infer_types::handle_concrete_signature;
use capi_compiler::passes::resolve_most_identifiers::resolve_most_identifiers;
use capi_compiler::passes::resolve_recursive_calls::resolve_recursive_calls;
use capi_compiler::passes::resolve_recursive_local_functions::resolve_recursive_local_functions;
use capi_compiler::passes::sort_non_divergent_branches::sort_non_divergent_branches;
use capi_compiler::tokens::tokenize;
use capi_compiler::types::{ConcreteSignature, Signature, Type, TypeIndex, Types};

fn prepare(source: &str) -> (Functions, OrderedFunctions) {
    let mut functions = parse(tokenize(source));
    determine_tail_positions(&mut functions);
    resolve_most_identifiers(&mut functions, &NoHost);
    let ordered = order_functions_by_dependencies(&functions);
    resolve_recursive_calls(&mut functions, &ordered);
    resolve_recursive_local_functions(&mut functions, &ordered);
    (functions, ordered)
}

fn branch(function: FunctionLocation, index: u32) -> BranchLocation {
    BranchLocation { parent: Box::new(function), index: BranchIndex(index) }
}

fn f() -> FunctionLocation {
    FunctionLocation::NamedFunction { index: FunctionIndexInRootContext(0) }
}

#[test]
fn sort_branches_base_case_comes_before_recursive_case() {
    let (functions, mut ordered) = prepare(
        r"
            f: fn
                \ 1 ->
                    0 f

                \ 0 ->
                    0
            end
        ",
    );
    for cluster in &mut ordered.clusters {
        cluster.divergent_functions = Some(Vec::new());
    }
    sort_non_divergent_branches(&functions, &mut ordered);

    assert_eq!(ordered.clusters.len(), 1);
    assert_eq!(ordered.clusters[0].non_divergent_branches, Some(vec![branch(f(), 1), branch(f(), 0)]));
}

#[test]
fn sort_branches_leaves_out_divergent_functions() {
    let (functions, mut ordered) = prepare(
        r"
            f: fn
                \ ->
                    f
            end
        ",
    );
    for cluster in &mut ordered.clusters {
        cluster.divergent_functions = Some(cluster.functions.iter().map(|l| l.copied()).collect());
    }
    sort_non_divergent_branches(&functions, &mut ordered);

    assert_eq!(ordered.clusters[0].non_divergent_branches, Some(Vec::new()));
}

#[test]
fn sort_branches_looks_into_recursive_function_literals() {
    let (functions, mut ordered) = prepare(
        r"
            f: fn
                \ 0 ->
                    fn
                        \ ->
                            0 f
                    end

                \ 1 ->
                    0
            end
        ",
    );
    assert_eq!(ordered.clusters.len(), 1);
    let literal = functions.anonymous[0].location.copied();
    assert!(matches!(functions.named[0].inner.branches[0].body[0], Expression::LocalFunctionRecursive { .. }));
    for cluster in &mut ordered.clusters {
        cluster.divergent_functions = Some(Vec::new());
    }
    sort_non_divergent_branches(&functions, &mut ordered);

    let anonymous = FunctionLocation::AnonymousFunction { location: literal };
    let sorted = ordered.clusters[0].non_divergent_branches.as_ref().unwrap();
    // The function literal needs `f`, which has no branch in the list at
    // first; `f`'s first branch needs what the literal needs.
    assert_eq!(sorted, &vec![branch(f(), 1), branch(anonymous, 0), branch(f(), 0)]);
}

#[test]
fn sort_branches_keeps_independent_branches_in_order() {
    let (functions, mut ordered) = prepare(
        r"
            f: fn
                \ 0 ->
                    1

                \ 1 ->
                    2
            end

            g: fn
                \ ->
                    f
            end
        ",
    );
    for cluster in &mut ordered.clusters {
        cluster.divergent_functions = Some(Vec::new());
    }
    sort_non_divergent_branches(&functions, &mut ordered);

    let g = FunctionLocation::NamedFunction { index: FunctionIndexInRootContext(1) };
    assert_eq!(ordered.clusters.len(), 2);
    assert_eq!(ordered.clusters[0].non_divergent_branches, Some(vec![branch(f(), 0), branch(f(), 1)]));
    // `g` calls `f`, which is in another cluster: no constraint within `g`'s.
    assert_eq!(ordered.clusters[1].non_divergent_branches, Some(vec![branch(g, 0)]));
}

#[test]
fn handle_concrete_signature_replaces_types_on_stack() {
    let mut types = Types::new();
    types.inner = vec![Type::Unknown, Type::Unknown];
    let mut stack = vec![TypeIndex(0), TypeIndex(1)];
    let signature = handle_concrete_signature(
        ConcreteSignature { inputs: vec![Type::Number], outputs: vec![] },
        &mut stack,
        &mut types,
    );

    assert_eq!(stack, vec![TypeIndex(0)]);
    assert_eq!(types.inner, vec![Type::Unknown, Type::Number, Type::Number]);
    assert_eq!(signature, Signature { inputs: vec![TypeIndex(2)], outputs: vec![] });
}

#[test]
fn handle_concrete_signature_with_short_stack() {
    let mut types = Types::new();
    types.inner = vec![Type::Unknown];
    let mut stack = vec![TypeIndex(0)];
    let signature = handle_concrete_signature(
        ConcreteSignature { inputs: vec![Type::Empty, Type::Number], outputs: vec![Type::Number] },
        &mut stack,
        &mut types,
    );

    // The top of the stack gets the type of the last input; nothing is left
    // for the first.
    assert_eq!(stack, vec![]);
    assert_eq!(types.inner, vec![Type::Number, Type::Empty, Type::Number, Type::Number]);
    assert_eq!(
        signature,
        Signature { inputs: vec![TypeIndex(1), TypeIndex(2)], outputs: vec![TypeIndex(3)] }
    );
}

#[test]
fn handle_concrete_signature_without_inputs() {
    let mut types = Types::new();
    types.inner = vec![];
    let mut stack = vec![];
    let signature = handle_concrete_signature(
        ConcreteSignature { inputs: vec![], outputs: vec![Type::Number, Type::Unknown] },
        &mut stack,
        &mut types,
    );

    assert_eq!(stack, vec![]);
    assert_eq!(types.inner, vec![Type::Number, Type::Unknown]);
    assert_eq!(signature, Signature { inputs: vec![], outputs: vec![TypeIndex(0), TypeIndex(1)] });
}

#[test]
fn resolve_non_recursive_functions_calls_by_hash() {
    let (functions, ordered) = prepare(
        r"
            f: fn
                \ ->
                    g
            end

            g: fn
                \ ->
                    1
            end
        ",
    );
    let stable = capi_compiler::passes::resolve_non_recursive_functions::resolve_non_recursive_functions(
        functions, &ordered,
    );
    let functions = stable.functions();
    let g_hash = capi_compiler::code::Hash::new(&functions.named[1].inner);
    assert_eq!(
        functions.named[0].inner.branches[0].body[0],
        Expression::CallToUserDefinedFunction { hash: g_hash, is_tail_call: true }
    );
}

#[test]
fn resolve_non_recursive_functions_function_literal_by_hash() {
    let (functions, ordered) = prepare(
        r"
            f: fn
                \ ->
                    fn
                        \ ->
                            2
                    end
                    eval
            end
        ",
    );
    let stable = capi_compiler::passes::resolve_non_recursive_functions::resolve_non_recursive_functions(
        functions, &ordered,
    );
    let functions = stable.functions();
    let literal_hash = capi_compiler::code::Hash::new(&functions.anonymous[0].function);
    assert_eq!(functions.named[0].inner.branches[0].body[0], Expression::LocalFunction { hash: literal_hash });
}

#[test]
fn equal_functions_have_equal_hashes() {
    let a = parse(tokenize("f: fn \\ n -> n 1 add_i32 end "));
    let b = parse(tokenize("g: fn \\ n -> n 1 add_i32 end "));
    let c = parse(tokenize("h: fn \\ n -> n 2 add_i32 end "));
    let hash_a = capi_compiler::code::Hash::new(&a.named[0].inner);
    let hash_b = capi_compiler::code::Hash::new(&b.named[0].inner);
    let hash_c = capi_compiler::code::Hash::new(&c.named[0].inner);
    assert_eq!(hash_a, hash_b);
    assert_ne!(hash_a, hash_c);
}
