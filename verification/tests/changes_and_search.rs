use capi_compiler::code::{Expression, Functions};
use capi_compiler::host::NoHost;
use capi_compiler::location::{
    BranchIndex, BranchLocation, FragmentIndexInBranchBody, FragmentLocation, FunctionIndexInRootContext,
    FunctionLocation,
};
use capi_compiler::parse::parse;
use capi_compiler::passes::build_call_graph::order_functions_by_dependencies;
use capi_compiler::passes::detect_changes::detect_changes;
use capi_compiler::passes::resolve_most_identifiers::resolve_most_identifiers;
use capi_compiler::passes::resolve_non_recursive_functions::{
    resolve_calls_to_user_defined_functions, resolve_non_recursive_functions, StableFunctions,
};
use capi_compiler::tokens::tokenize;

fn stable(source: &str) -> StableFunctions {
    let mut functions = parse(tokenize(source));
    resolve_most_identifiers(&mut functions, &NoHost);
    let ordered = order_functions_by_dependencies(&functions);
    resolve_non_recursive_functions(functions, &ordered)
}

fn named(index: u32) -> FunctionLocation {
    FunctionLocation::NamedFunction { index: FunctionIndexInRootContext(index) }
}

const OLD: &str = r"
    f: fn
        \ ->
            1
    end

    g: fn
        \ ->
            2
    end
";

const NEW: &str = r"
    f: fn
        \ ->
            1
    end

    g: fn
        \ ->
            3
    end

    h: fn
        \ ->
            4
    end
";

#[test]
fn detect_changes_finds_added_and_updated_functions() {
    let old = stable(OLD);
    let new = stable(NEW);
    let changes = detect_changes(Some(old), new.functions());

    assert_eq!(changes.added.len(), 1);
    assert_eq!(changes.added[0].0, named(2));
    assert_eq!(changes.added[0].1, new.functions().named[2].inner);

    assert_eq!(changes.updated.len(), 1);
    let old_again = stable(OLD);
    assert_eq!(changes.updated[0].old.location, named(1));
    assert_eq!(changes.updated[0].old.function, old_again.functions().named[1].inner);
    assert_eq!(changes.updated[0].new.location, named(1));
    assert_eq!(changes.updated[0].new.function, new.functions().named[1].inner);
}

#[test]
fn detect_changes_without_old_version_adds_everything() {
    let new = stable(NEW);
    let changes = detect_changes(None, new.functions());

    let added: Vec<FunctionLocation> = changes.added.iter().map(|(location, _)| location.copied()).collect();
    assert_eq!(added, vec![named(0), named(1), named(2)]);
    assert!(changes.updated.is_empty());
}

#[test]
fn detect_changes_of_unchanged_program_is_empty() {
    let old = stable(NEW);
    let new = stable(NEW);
    let changes = detect_changes(Some(old), new.functions());

    assert!(changes.added.is_empty());
    assert!(changes.updated.is_empty());
}

#[test]
fn find_by_name_and_hash() {
    let functions = parse(tokenize(NEW));

    let g = functions.find_by_name("g").unwrap();
    assert_eq!(g.metadata, named(1));
    assert_eq!(g.find, functions.named[1].inner);
    assert!(functions.find_by_name("nothing").is_none());

    let hash = capi_compiler::code::Hash::new(&functions.named[2].inner);
    let h = functions.find_by_hash(&hash).unwrap();
    assert_eq!(h.metadata, named(2));

    let empty = Functions { named: vec![], anonymous: vec![] };
    assert!(empty.find_by_hash(&hash).is_none());
}

#[test]
fn find_single_branch_and_its_body() {
    let functions = parse(tokenize(
        r"
            f: fn
                \ a ->
                    a 1
            end

            g: fn
                \ 0 ->
                    0

                \ n ->
                    n
            end
        ",
    ));

    let f = functions.find_by_name("f").unwrap();
    let branch = f.find_single_branch().unwrap();
    let f_branch = BranchLocation { parent: Box::new(named(0)), index: BranchIndex(0) };
    assert_eq!(branch.location, f_branch);

    let body = branch.body();
    assert_eq!(body.len(), 2);
    assert_eq!(
        body[1].location,
        FragmentLocation { parent: Box::new(f_branch.copied()), index: FragmentIndexInBranchBody(1) }
    );
    assert!(matches!(body[1].fragment, Expression::Value(_)));

    let g = functions.find_by_name("g").unwrap();
    assert!(g.find_single_branch().is_none());
    let branches = g.branches();
    assert_eq!(branches.len(), 2);
    assert_eq!(branches[1].location, BranchLocation { parent: Box::new(named(1)), index: BranchIndex(1) });
}

#[test]
fn find_branches_and_fragments_by_location() {
    let functions = parse(tokenize(NEW));
    let branch = BranchLocation { parent: Box::new(named(1)), index: BranchIndex(0) };

    assert_eq!(functions.find_branch_by_location(&branch), Some(&functions.named[1].inner.branches[0]));
    assert!(functions
        .find_branch_by_location(&BranchLocation { parent: Box::new(named(1)), index: BranchIndex(1) })
        .is_none());
    assert!(functions
        .find_branch_by_location(&BranchLocation { parent: Box::new(named(7)), index: BranchIndex(0) })
        .is_none());

    let fragment = FragmentLocation { parent: Box::new(branch.copied()), index: FragmentIndexInBranchBody(0) };
    assert_eq!(functions.find_fragment_by_location(&fragment), Some(&functions.named[1].inner.branches[0].body[0]));
    let beyond = FragmentLocation { parent: Box::new(branch), index: FragmentIndexInBranchBody(1) };
    assert!(functions.find_fragment_by_location(&beyond).is_none());
}

#[test]
fn resolve_calls_to_user_defined_functions_resolves_calls_by_hash() {
    let source = r"
        main: fn
            \ ->
                g
        end

        g: fn
            \ ->
                1
        end
    ";
    let mut functions = parse(tokenize(source));
    resolve_most_identifiers(&mut functions, &NoHost);
    let ordered = order_functions_by_dependencies(&functions);
    let resolved = resolve_calls_to_user_defined_functions(functions, &ordered);

    let g = capi_compiler::code::Hash::new(&resolved.functions().named[1].inner);
    match &resolved.functions().named[0].inner.branches[0].body[0] {
        Expression::CallToUserDefinedFunction { hash, .. } => assert_eq!(*hash, g),
        _ => panic!("expected a resolved call"),
    }
    assert_eq!(resolved.functions(), stable(source).functions());
}
