use capi_compiler::call_graph::OrderedFunctions;
use capi_compiler::code::{Expression, Functions};
use capi_compiler::host::{HostFunction, HostFunctionList, NoHost};
use capi_compiler::intrinsics::IntrinsicFunction;
use capi_compiler::location::{
    BranchIndex, BranchLocation, FragmentIndexInBranchBody, FragmentLocation,
    FunctionIndexInCluster, FunctionIndexInRootContext, FunctionLocation,
};
use capi_compiler::parse::parse;
use capi_compiler::passes::build_call_graph::order_functions_by_dependencies;
use capi_compiler::passes::determine_tail_positions::determine_tail_positions;
use capi_compiler::passes::resolve_most_identifiers::resolve_most_identifiers;
use capi_compiler::passes::resolve_recursive_calls::resolve_recursive_calls;
use capi_compiler::passes::resolve_recursive_local_functions::resolve_recursive_local_functions;
use capi_compiler::tokens::tokenize;
use capi_compiler::types::ConcreteSignature;

fn named(index: u32) -> FunctionLocation {
    FunctionLocation::NamedFunction { index: FunctionIndexInRootContext(index) }
}

fn first_expression_of(function: FunctionLocation) -> FragmentLocation {
    FragmentLocation {
        parent: Box::new(BranchLocation { parent: Box::new(function), index: BranchIndex(0) }),
        index: FragmentIndexInBranchBody(0),
    }
}

fn anonymous(location: FragmentLocation) -> FunctionLocation {
    FunctionLocation::AnonymousFunction { location }
}

fn identifiers(body: &[Expression]) -> Vec<(&str, bool)> {
    body.iter()
        .filter_map(|expression| {
            if let Expression::UnresolvedIdentifier { name, is_known_to_be_in_tail_position, .. } =
                expression
            {
                Some((name.as_str(), *is_known_to_be_in_tail_position))
            } else {
                None
            }
        })
        .collect()
}

fn order(source: &str) -> OrderedFunctions {
    let mut functions = parse(tokenize(source));
    resolve_most_identifiers(&mut functions, &NoHost);
    order_functions_by_dependencies(&functions)
}

fn cluster_locations(ordered: &OrderedFunctions) -> Vec<Vec<FunctionLocation>> {
    ordered
        .clusters_from_leaves()
        .iter()
        .map(|cluster| cluster.functions.iter().map(|l| l.copied()).collect())
        .collect()
}

#[test]
fn build_call_graph_no_recursion() {
    let ordered = order(
        r"
            f: fn
                \ ->
                    g
            end

            g: fn
                \ ->
                    nop
            end
        ",
    );
    assert_eq!(cluster_locations(&ordered), vec![vec![named(1)], vec![named(0)]]);
}

#[test]
fn build_call_graph_self_recursion() {
    let ordered = order(
        r"
            f: fn
                \ ->
                    g
            end

            g: fn
                \ ->
                    g
            end
        ",
    );
    assert_eq!(cluster_locations(&ordered), vec![vec![named(1)], vec![named(0)]]);
}

#[test]
fn build_call_graph_mutual_recursion() {
    let ordered = order(
        r"
            f: fn
                \ ->
                    g
            end

            g: fn
                \ ->
                    h
            end

            h: fn
                \ ->
                    g
            end
        ",
    );
    assert_eq!(cluster_locations(&ordered), vec![vec![named(1), named(2)], vec![named(0)]]);
}

#[test]
fn build_call_graph_sort_clusters_by_call_graph() {
    let ordered = order(
        r"
            f: fn
                \ ->
                    # Call a function that comes is placed after this one in
                    # the source code.
                    h
            end

            g: fn
                \ ->
                    nop
            end

            h: fn
                \ ->
                    # And for some variety, call a function that is placed
                    # before.
                    g
            end
        ",
    );
    assert_eq!(
        cluster_locations(&ordered),
        vec![vec![named(1)], vec![named(2)], vec![named(0)]]
    );
}

#[test]
fn build_call_graph_consider_anonymous_functions_in_call_graph() {
    let ordered = order(
        r"
            f: fn
                \ ->
                    fn
                        \ ->
                            # Call a function that is placed after this one
                            # in the source code.
                            h
                    end
            end

            g: fn
                \ ->
                    nop
            end

            h: fn
                \ ->
                    fn
                        \ ->
                            # And for some variety, call a function that is
                            # placed before.
                            g
                    end
            end
        ",
    );
    let f_a = anonymous(first_expression_of(named(0)));
    let h_a = anonymous(first_expression_of(named(2)));
    assert_eq!(
        cluster_locations(&ordered),
        vec![vec![named(1)], vec![h_a], vec![named(2)], vec![f_a], vec![named(0)]]
    );
}

fn tail_positions(source: &str) -> Functions {
    let mut functions = parse(tokenize(source));
    determine_tail_positions(&mut functions);
    functions
}

#[test]
fn determine_tail_positions_tail_call_in_named_function() {
    let functions = tail_positions(
        r"
            f: fn
                \ ->
                    not_tail
                    tail
            end
        ",
    );
    let branch = &functions.named[0].inner.branches[0];
    assert_eq!(identifiers(&branch.body), vec![("not_tail", false), ("tail", true)]);
}

#[test]
fn determine_tail_positions_tail_call_in_anonymous_function() {
    let functions = tail_positions(
        r"
            f: fn
                \ ->
                    a
                    fn
                        \ ->
                            not_tail
                            tail
                    end
                    b
            end
        ",
    );
    let branch = &functions.named[0].inner.branches[0];
    assert_eq!(identifiers(&branch.body), vec![("a", false), ("b", true)]);
    assert!(matches!(branch.body[1], Expression::UnresolvedLocalFunction));
    let function = &functions.anonymous[0];
    assert_eq!(
        function.location,
        FragmentLocation {
            parent: Box::new(BranchLocation { parent: Box::new(named(0)), index: BranchIndex(0) }),
            index: FragmentIndexInBranchBody(1),
        }
    );
    assert_eq!(
        identifiers(&function.function.branches[0].body),
        vec![("not_tail", false), ("tail", true)]
    );
}

#[test]
fn determine_tail_positions_comment_after_tail_call() {
    let functions = tail_positions(
        r"
            f: fn
                \ ->
                    not_tail
                    tail
                    # This is a comment.
            end
        ",
    );
    let branch = &functions.named[0].inner.branches[0];
    assert_eq!(identifiers(&branch.body), vec![("not_tail", false), ("tail", true)]);
}

fn test_host() -> HostFunctionList {
    HostFunctionList {
        functions: vec![HostFunction {
            name: String::from("host_fn"),
            number: 0,
            signature: ConcreteSignature { inputs: vec![], outputs: vec![] },
        }],
    }
}

fn resolve_identifiers(source: &str) -> Functions {
    let mut functions = parse(tokenize(source));
    resolve_most_identifiers(&mut functions, &test_host());
    functions
}

#[test]
fn resolve_most_identifiers_resolve_host_function() {
    let functions = resolve_identifiers(
        r"
            f: fn
                \ ->
                    host_fn
            end
        ",
    );
    assert_eq!(
        functions.named[0].inner.branches[0].body.last(),
        Some(&Expression::CallToHostFunction { number: 0 })
    );
}

#[test]
fn resolve_most_identifiers_resolve_intrinsic() {
    let functions = resolve_identifiers(
        r"
            f: fn
                \ ->
                    eval
            end
        ",
    );
    assert_eq!(
        functions.named[0].inner.branches[0].body.last(),
        Some(&Expression::CallToIntrinsicFunction { intrinsic: IntrinsicFunction::Eval })
    );
}

#[test]
fn resolve_most_identifiers_resolve_user_function() {
    let functions = resolve_identifiers(
        r"
            f: fn
                \ ->
                    user_fn
            end

            user_fn: fn
                \ ->
            end
        ",
    );
    assert_eq!(
        functions.named[0].inner.branches[0].body.last(),
        Some(&Expression::UnresolvedIdentifier {
            name: String::from("user_fn"),
            is_known_to_be_in_tail_position: false,
            is_known_to_be_call_to_user_defined_function: true,
        })
    );
}

fn recursive_calls(source: &str) -> Functions {
    let mut functions = parse(tokenize(source));
    determine_tail_positions(&mut functions);
    resolve_most_identifiers(&mut functions, &NoHost);
    let ordered = order_functions_by_dependencies(&functions);
    resolve_recursive_calls(&mut functions, &ordered);
    resolve_recursive_local_functions(&mut functions, &ordered);
    functions
}

#[test]
fn resolve_recursive_calls_self_recursive_functions() {
    let functions = recursive_calls(
        r"
            f: fn
                \ ->
                    f
            end

            # Need a second function in this test, because for the first,
            # the index of the function within the list of all named
            # functions and the index of the function within its cluster,
            # are both `0`.
            g: fn
                \ ->
                    g
            end
        ",
    );
    for function in &functions.named {
        let Expression::CallToUserDefinedFunctionRecursive { index, is_tail_call } =
            &function.inner.branches[0].body[0]
        else {
            panic!("Expected expression to be an identifier.");
        };
        assert_eq!(*index, FunctionIndexInCluster(0));
        assert!(*is_tail_call);
    }
}

#[test]
fn resolve_recursive_calls_mark_recursive_calls_from_anonymous_functions() {
    let functions = recursive_calls(
        r"
            f: fn
                \ ->
                    fn
                        \ ->
                            f
                    end
            end
        ",
    );
    let f_a = &functions.anonymous[0];
    let Expression::CallToUserDefinedFunctionRecursive { index, .. } =
        &f_a.function.branches[0].body[0]
    else {
        panic!("Expected identifier to be a recursive function call.");
    };
    // `f` and its anonymous function call each other, and `f` comes first.
    assert_eq!(*index, FunctionIndexInCluster(0));
    assert_eq!(
        functions.named[0].inner.branches[0].body[0],
        Expression::LocalFunctionRecursive { index: FunctionIndexInCluster(1) }
    );
}
