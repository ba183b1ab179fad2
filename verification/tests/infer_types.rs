use capi_compiler::code::Functions;
use capi_compiler::host::{HostFunction, HostFunctionList, NoHost};
use capi_compiler::location::{
    BranchIndex, BranchLocation, FragmentIndexInBranchBody, FragmentLocation, FunctionIndexInRootContext,
    FunctionLocation,
};
use capi_compiler::parse::parse;
use capi_compiler::passes::build_call_graph::order_functions_by_dependencies;
use capi_compiler::passes::determine_tail_positions::determine_tail_positions;
use capi_compiler::passes::infer_types::infer_types;
use capi_compiler::passes::resolve_most_identifiers::resolve_most_identifiers;
use capi_compiler::passes::resolve_non_recursive_functions::{resolve_non_recursive_functions, StableFunctions};
use capi_compiler::passes::resolve_recursive_calls::resolve_recursive_calls;
use capi_compiler::passes::resolve_recursive_local_functions::resolve_recursive_local_functions;
use capi_compiler::tokens::tokenize;
use capi_compiler::types::Type::{Empty, Number, Unknown};
use capi_compiler::types::{ConcreteSignature, Signature, Type, Types};

fn number_to_nothing() -> HostFunction {
    HostFunction {
        name: String::from("number_to_nothing"),
        number: 0,
        signature: ConcreteSignature { inputs: vec![Type::Number], outputs: vec![] },
    }
}

fn test_host() -> HostFunctionList {
    HostFunctionList {
        functions: vec![number_to_nothing()],
    }
}

fn type_fragments(source: &str) -> (StableFunctions, Types) {
    let mut functions = parse(tokenize(source));
    determine_tail_positions(&mut functions);
    resolve_most_identifiers(&mut functions, &test_host());
    let ordered = order_functions_by_dependencies(&functions);
    resolve_recursive_calls(&mut functions, &ordered);
    resolve_recursive_local_functions(&mut functions, &ordered);
    let functions = resolve_non_recursive_functions(functions, &ordered);
    let types = infer_types(functions.functions(), &ordered, &test_host());
    (functions, types)
}

fn f() -> FunctionLocation {
    FunctionLocation::NamedFunction { index: FunctionIndexInRootContext(0) }
}

fn branch_of_f(index: u32) -> BranchLocation {
    BranchLocation { parent: Box::new(f()), index: BranchIndex(index) }
}

fn expression_of_f(index: u32) -> FragmentLocation {
    FragmentLocation { parent: Box::new(branch_of_f(0)), index: FragmentIndexInBranchBody(index) }
}

fn concrete(signature: &Signature, types: &Types) -> ConcreteSignature {
    signature.to_concrete_signature(types).unwrap()
}

fn signature(inputs: Vec<Type>, outputs: Vec<Type>) -> ConcreteSignature {
    ConcreteSignature { inputs, outputs }
}

fn function_signature(functions: &StableFunctions, types: &Types) -> ConcreteSignature {
    let f = functions.functions().find_by_name("f").unwrap();
    concrete(types.signature_of_function(&f.metadata).unwrap(), types)
}

#[test]
fn infer_fragment_signatures_based_on_host_function() {
    let (functions, types) = type_fragments(
        r"
            f: fn
                \ n ->
                    n number_to_nothing
            end
        ",
    );

    let n = concrete(types.signature_of_expression(&expression_of_f(0)).unwrap(), &types);
    let host_fn = concrete(types.signature_of_expression(&expression_of_f(1)).unwrap(), &types);

    assert_eq!(n, signature(vec![], vec![Number]));
    assert_eq!(host_fn, signature(vec![Number], vec![]));
}

#[test]
fn infer_type_of_function_literal() {
    let (functions, types) = type_fragments(
        r"
            f: fn
                \ ->
                    fn
                        \ 0 ->
                            0
                    end
            end
        ",
    );

    let function = concrete(types.signature_of_expression(&expression_of_f(0)).unwrap(), &types);

    assert_eq!(function.inputs, vec![]);

    let [Type::Function { signature: literal }] = function.outputs.as_slice() else {
        panic!("Unexpected outputs: {:?}", function.outputs);
    };
    let literal = concrete(literal, &types);

    assert_eq!(literal, signature(vec![Number], vec![Number]));
}

#[test]
fn infer_signatures_of_branch_and_function() {
    let (functions, types) = type_fragments(
        r"
            f: fn
                \ a, b, 0 ->
                    a number_to_nothing
                    b
            end
        ",
    );

    let branch = concrete(types.signature_of_branch(&branch_of_f(0)).unwrap(), &types);
    let function = function_signature(&functions, &types);

    let expected_signature = signature(vec![Number, Unknown, Number], vec![Unknown]);

    assert_eq!(branch, expected_signature);
    assert_eq!(function, expected_signature);
}

#[test]
fn infer_self_recursive_function_as_empty() {
    let (functions, types) = type_fragments(
        r"
            f: fn
                \ a, b, 0 ->
                    a number_to_nothing
                    0 b 0 f
            end
        ",
    );

    assert_eq!(function_signature(&functions, &types), signature(vec![Number, Unknown, Number], vec![Empty]));
}

#[test]
fn infer_self_recursive_non_empty_function() {
    let (functions_a, types_a) = type_fragments(
        r"
            f: fn
                \ a, b, 0 ->
                    a number_to_nothing
                    0

                \ a, b, 1 ->
                    0 b 0 f
            end
        ",
    );
    let (functions_b, types_b) = type_fragments(
        r"
            f: fn
                \ a, b, 1 ->
                    0 b 0 f

                \ a, b, 0 ->
                    a number_to_nothing
                    0
            end
        ",
    );

    for (functions, types) in [(&functions_a, &types_a), (&functions_b, &types_b)] {
        assert_eq!(function_signature(functions, types), signature(vec![Number, Unknown, Number], vec![Number]));
    }
}

#[test]
fn infer_types_of_calls_to_other_functions() {
    let (functions, types) = type_fragments(
        r"
            f: fn
                \ ->
                    1 g
            end

            g: fn
                \ n ->
                    n number_to_nothing
                    2
            end
        ",
    );

    // `g` takes one argument, which the host function takes as a number.
    let g = FunctionLocation::NamedFunction { index: FunctionIndexInRootContext(1) };
    assert_eq!(concrete(types.signature_of_function(&g).unwrap(), &types), signature(vec![Number], vec![Number]));
    // The call of `g` has `g`'s signature.
    assert_eq!(
        concrete(types.signature_of_expression(&expression_of_f(1)).unwrap(), &types),
        signature(vec![Number], vec![Number])
    );
    // The call does not take its argument off the stack: `f` leaves both.
    assert_eq!(function_signature(&functions, &types), signature(vec![], vec![Number, Number]));
}

#[test]
fn infer_types_of_no_functions() {
    let functions = Functions { named: vec![], anonymous: vec![] };
    let ordered = order_functions_by_dependencies(&functions);
    let types = infer_types(&functions, &ordered, &NoHost);
    assert!(types.inner.is_empty());
    assert!(types.of_expressions.is_empty());
    assert!(types.of_functions.is_empty());
}

#[test]
fn infer_type_of_function_based_on_most_specific_branch() {
    let (functions_a, types_a) = type_fragments(
        r"
            f: fn
                \ 0 ->
                    0

                \ n ->
                    n
            end
        ",
    );
    let (functions_b, types_b) = type_fragments(
        r"
            f: fn
                \ n ->
                    n

                \ 0 ->
                    0
            end
        ",
    );

    for (functions, types) in [(&functions_a, &types_a), (&functions_b, &types_b)] {
        assert_eq!(function_signature(functions, types), signature(vec![Number], vec![Number]));
    }
}

#[test]
#[should_panic] // missing feature
fn infer_mutually_recursive_functions_as_empty() {
    let f = r"
        f: fn
            \ a, b, 0 ->
                a number_to_nothing
                0 b 1 g
        end
    ";
    let g = r"
        g: fn
            \ a, b, 1 ->
                0 b 0 f
        end
    ";

    check(&format!("{f}{g}"));
    check(&format!("{g}{f}"));

    fn check(code: &str) {
        let (functions, types) = type_fragments(code);
        let expected_signature = signature(vec![Number, Unknown, Number], vec![Empty]);
        assert_eq!(function_signature(&functions, &types), expected_signature);
    }
}
