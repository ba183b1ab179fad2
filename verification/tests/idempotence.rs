use capi_compiler::host::NoHost;
use capi_compiler::parse::parse;
use capi_compiler::passes::determine_tail_positions::determine_tail_positions;
use capi_compiler::passes::resolve_most_identifiers::resolve_most_identifiers;
use capi_compiler::tokens::tokenize;

const SOURCE: &str = r"
    f: fn
        \ 0 ->
            # a comment after nothing
            g

        \ n ->
            fn
                \ ->
                    n eval
            end
            # a comment at the end
    end

    g: fn
        \ ->
            f
    end
";

#[test]
fn determine_tail_positions_twice_is_once() {
    let mut once = parse(tokenize(SOURCE));
    determine_tail_positions(&mut once);
    let mut twice = parse(tokenize(SOURCE));
    determine_tail_positions(&mut twice);
    determine_tail_positions(&mut twice);
    assert_eq!(once, twice);
}

#[test]
fn resolve_most_identifiers_twice_is_once() {
    let mut once = parse(tokenize(SOURCE));
    resolve_most_identifiers(&mut once, &NoHost);
    let mut twice = parse(tokenize(SOURCE));
    resolve_most_identifiers(&mut twice, &NoHost);
    resolve_most_identifiers(&mut twice, &NoHost);
    assert_eq!(once, twice);
}
