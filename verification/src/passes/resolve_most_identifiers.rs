//! # Resolving identifiers, except calls to user-defined functions

use vstd::prelude::*;

use crate::code::{
    AnonymousFunctionView, Branch, BranchView, Expression, ExpressionView, Function, FunctionView,
    Functions, FunctionsView, NamedFunctionView,
};
use crate::host::{host_function_by_name, Host, HostFunction, HostFunctionView};
use crate::intrinsics::{intrinsic_by_name, IntrinsicFunction};

verus! {

/// `expression`, with an unresolved identifier resolved: to a call to the
/// intrinsic of that name, if there is one; otherwise to a call to the host
/// function of that name, if there is one; otherwise, if a named function has
/// that name, marked as a call to a user-defined function
pub open spec fn resolve_in_expression(
    expression: ExpressionView,
    host_functions: Seq<HostFunctionView>,
    names: Set<Seq<char>>,
) -> ExpressionView {
    match expression {
        ExpressionView::UnresolvedIdentifier { name, is_known_to_be_in_tail_position, .. } =>
            match intrinsic_by_name(name) {
            Some(intrinsic) => ExpressionView::CallToIntrinsicFunction { intrinsic },
            None => match host_function_by_name(host_functions, name) {
                Some(f) => ExpressionView::CallToHostFunction { number: f.number },
                None => if names.contains(name) {
                    ExpressionView::UnresolvedIdentifier {
                        name,
                        is_known_to_be_in_tail_position,
                        is_known_to_be_call_to_user_defined_function: true,
                    }
                } else {
                    expression
                },
            },
        },
        _ => expression,
    }
}

/// `function`, with the identifiers in all of its branches resolved
pub open spec fn resolve_in_function(
    function: FunctionView,
    host_functions: Seq<HostFunctionView>,
    names: Set<Seq<char>>,
) -> FunctionView {
    FunctionView {
        branches: function.branches.map_values(
            |b: BranchView|
                BranchView {
                    parameters: b.parameters,
                    body: b.body.map_values(
                        |e: ExpressionView| resolve_in_expression(e, host_functions, names),
                    ),
                },
        ),
    }
}

/// `functions`, with the identifiers in all of them resolved, except those that
/// refer to user-defined functions: those are marked as such
pub open spec fn spec_resolve_most_identifiers(
    functions: FunctionsView,
    host_functions: Seq<HostFunctionView>,
) -> FunctionsView {
    let names = functions.names();
    FunctionsView {
        named: functions.named.map_values(
            |f: NamedFunctionView|
                NamedFunctionView {
                    name: f.name,
                    inner: resolve_in_function(f.inner, host_functions, names),
                },
        ),
        anonymous: functions.anonymous.map_values(
            |f: AnonymousFunctionView|
                AnonymousFunctionView {
                    location: f.location,
                    function: resolve_in_function(f.function, host_functions, names),
                },
        ),
    }
}

/// # The number of the first of `host_functions` with the given name
fn host_function_number(host_functions: &Vec<HostFunction>, name: &str) -> (r: Option<u8>)
    ensures
        r == (match host_function_by_name(host_functions.deep_view(), name@) {
            Some(f) => Some(f.number),
            None => None,
        }),
{
    let ghost all = host_functions.deep_view();
    let n = host_functions.len();
    let mut i: usize = 0;
    while i < n
        invariant
            n == host_functions.len(),
            all == host_functions.deep_view(),
            i <= n,
            forall|j: int|
                0 <= j < i ==> !crate::host::is_queried(#[trigger] all[j], None, name@),
        decreases n - i,
    {
        if crate::intrinsics::str_eq(host_functions[i].name.as_str(), name) {
            proof {
                crate::host::lemma_first_queried(all, None, name@, i as int);
            }
            return Some(host_functions[i].number);
        }
        i = i + 1;
    }
    proof {
        crate::host::lemma_first_queried(all, None, name@, n as int);
    }
    None
}

/// # Whether one of `names` is `name`
fn contains_name(names: &Vec<String>, name: &str) -> (r: bool)
    ensures
        r == exists|i: int| 0 <= i < names@.len() && #[trigger] names@[i]@ == name@,
{
    let n = names.len();
    let mut i: usize = 0;
    while i < n
        invariant
            n == names.len(),
            i <= n,
            forall|j: int| 0 <= j < i ==> #[trigger] names@[j]@ != name@,
        decreases n - i,
    {
        if crate::intrinsics::str_eq(names[i].as_str(), name) {
            return true;
        }
        i = i + 1;
    }
    false
}

fn resolve_expression(
    expression: &mut Expression,
    host_functions: &Vec<HostFunction>,
    names: &Vec<String>,
    known: Ghost<Set<Seq<char>>>,
)
    requires
        forall|name: Seq<char>|
            known@.contains(name) <==> exists|i: int|
                0 <= i < names@.len() && #[trigger] names@[i]@ == name,
    ensures
        final(expression).deep_view() == resolve_in_expression(
            old(expression).deep_view(),
            host_functions.deep_view(),
            known@,
        ),
{
    let mut is_known = false;
    let mut replacement: Option<Expression> = None;
    if let Expression::UnresolvedIdentifier { name, .. } = &*expression {
        if let Some(intrinsic) = IntrinsicFunction::from_name(name.as_str()) {
            replacement = Some(Expression::CallToIntrinsicFunction { intrinsic });
        } else if let Some(number) = host_function_number(host_functions, name.as_str()) {
            replacement = Some(Expression::CallToHostFunction { number });
        } else if contains_name(names, name.as_str()) {
            is_known = true;
        }
    }
    match replacement {
        Some(r) => {
            *expression = r;
        },
        None => {
            if is_known {
                if let Expression::UnresolvedIdentifier {
                    is_known_to_be_call_to_user_defined_function,
                    ..
                } = expression {
                    *is_known_to_be_call_to_user_defined_function = true;
                }
            }
        },
    }
}

fn resolve_function(
    function: &mut Function,
    host_functions: &Vec<HostFunction>,
    names: &Vec<String>,
    known: Ghost<Set<Seq<char>>>,
)
    requires
        forall|name: Seq<char>|
            known@.contains(name) <==> exists|i: int|
                0 <= i < names@.len() && #[trigger] names@[i]@ == name,
    ensures
        final(function).deep_view() == resolve_in_function(
            old(function).deep_view(),
            host_functions.deep_view(),
            known@,
        ),
{
    let ghost hf = host_functions.deep_view();
    let n = function.branches.len();
    let mut b: usize = 0;
    while b < n
        invariant
            n == function.branches.len(),
            n == old(function).branches.len(),
            b <= n,
            hf == host_functions.deep_view(),
            forall|name: Seq<char>|
                known@.contains(name) <==> exists|i: int|
                    0 <= i < names@.len() && #[trigger] names@[i]@ == name,
            forall|j: int| 0 <= j < b ==> #[trigger] function.branches@[j].deep_view()
                == resolve_in_function(old(function).deep_view(), hf, known@).branches[j],
            forall|j: int| b <= j < n ==> #[trigger] function.branches@[j].deep_view()
                == old(function).branches@[j].deep_view(),
        decreases n - b,
    {
        let ghost prev = function.branches@;
        resolve_branch(&mut function.branches[b], host_functions, names, known);
        assert(function.branches@ == prev.update(b as int, function.branches@[b as int]));
        assert(prev[b as int].deep_view() == old(function).branches@[b as int].deep_view());
        b = b + 1;
    }
    assert(function.deep_view().branches =~= resolve_in_function(old(function).deep_view(), hf, known@).branches);
}

fn resolve_branch(
    branch: &mut Branch,
    host_functions: &Vec<HostFunction>,
    names: &Vec<String>,
    known: Ghost<Set<Seq<char>>>,
)
    requires
        forall|name: Seq<char>|
            known@.contains(name) <==> exists|i: int|
                0 <= i < names@.len() && #[trigger] names@[i]@ == name,
    ensures
        final(branch).deep_view() == (BranchView {
            parameters: old(branch).deep_view().parameters,
            body: old(branch).deep_view().body.map_values(
                |e: ExpressionView| resolve_in_expression(e, host_functions.deep_view(), known@),
            ),
        }),
{
    let ghost hf = host_functions.deep_view();
    let n = branch.body.len();
    let mut k: usize = 0;
    while k < n
        invariant
            n == branch.body.len(),
            n == old(branch).body.len(),
            k <= n,
            hf == host_functions.deep_view(),
            branch.parameters.deep_view() == old(branch).parameters.deep_view(),
            forall|name: Seq<char>|
                known@.contains(name) <==> exists|i: int|
                    0 <= i < names@.len() && #[trigger] names@[i]@ == name,
            forall|j: int| 0 <= j < k ==> #[trigger] branch.body@[j].deep_view()
                == resolve_in_expression(old(branch).body@[j].deep_view(), hf, known@),
            forall|j: int| k <= j < n ==> #[trigger] branch.body@[j].deep_view()
                == old(branch).body@[j].deep_view(),
        decreases n - k,
    {
        let ghost prev = branch.body@;
        resolve_expression(&mut branch.body[k], host_functions, names, known);
        assert(branch.body@ == prev.update(k as int, branch.body@[k as int]));
        assert(prev[k as int].deep_view() == old(branch).body@[k as int].deep_view());
        k = k + 1;
    }
    assert(branch.deep_view().body =~= old(branch).deep_view().body.map_values(
        |e: ExpressionView| resolve_in_expression(e, hf, known@),
    ));
}


/// Resolving identifiers a second time, with the same host functions, changes
/// nothing.
pub proof fn resolve_most_identifiers_is_idempotent(
    functions: FunctionsView,
    host_functions: Seq<HostFunctionView>,
)
    ensures
        spec_resolve_most_identifiers(
            spec_resolve_most_identifiers(functions, host_functions),
            host_functions,
        ) == spec_resolve_most_identifiers(functions, host_functions),
{
    let once = spec_resolve_most_identifiers(functions, host_functions);
    let names = functions.names();
    assert(once.names() =~= names) by {
        assert forall|name: Seq<char>| once.names().contains(name) implies names.contains(name) by {
            let i = choose|i: int| 0 <= i < once.named.len() && #[trigger] once.named[i].name == name;
            assert(functions.named[i].name == name);
        }
        assert forall|name: Seq<char>| names.contains(name) implies once.names().contains(name) by {
            let i = choose|i: int| 0 <= i < functions.named.len() && #[trigger] functions.named[i].name == name;
            assert(once.named[i].name == name);
        }
    }
    assert forall|e: ExpressionView| #[trigger] resolve_in_expression(
        resolve_in_expression(e, host_functions, names),
        host_functions,
        names,
    ) == resolve_in_expression(e, host_functions, names) by {}
    assert forall|f: FunctionView| #[trigger] resolve_in_function(
        resolve_in_function(f, host_functions, names),
        host_functions,
        names,
    ) == resolve_in_function(f, host_functions, names) by {
        let g = resolve_in_function(f, host_functions, names);
        let h = resolve_in_function(g, host_functions, names);
        assert forall|b: int| 0 <= b < h.branches.len() implies #[trigger] h.branches[b] == g.branches[b] by {
            assert(h.branches[b].body =~= g.branches[b].body);
        }
        assert(h.branches =~= g.branches);
    }
    let twice = spec_resolve_most_identifiers(once, host_functions);
    assert(twice.named =~= once.named);
    assert(twice.anonymous =~= once.anonymous);
}

/// # Resolve all identifiers, given the host's functions
///
/// Identifiers referring to user-defined functions are identified as such, but
/// can not be resolved without a call graph. By identifying them as such, this
/// pass creates the prerequisite for creating a call graph.
///
/// An intrinsic shadows a host function of the same name, which shadows a
/// user-defined function of the same name.
pub fn resolve_most_identifiers_with_host_functions(
    functions: &mut Functions,
    host_functions: &Vec<HostFunction>,
)
    ensures
        final(functions).deep_view() == spec_resolve_most_identifiers(
            old(functions).deep_view(),
            host_functions.deep_view(),
        ),
{
    let ghost names_set = old(functions).deep_view().names();
    let ghost hf = host_functions.deep_view();
    let mut names: Vec<String> = Vec::new();
    let n = functions.named.len();
    let mut i: usize = 0;
    while i < n
        invariant
            n == functions.named.len(),
            i <= n,
            names@.len() == i,
            forall|j: int| 0 <= j < i ==> #[trigger] names@[j]@ == functions.named@[j].name@,
        decreases n - i,
    {
        names.push(functions.named[i].name.clone());
        i = i + 1;
    }
    assert forall|name: Seq<char>| names_set.contains(name) <==> exists|i: int|
        0 <= i < names@.len() && #[trigger] names@[i]@ == name by {
        if names_set.contains(name) {
            let j = choose|j: int| 0 <= j < functions.named.deep_view().len() && #[trigger] functions.named.deep_view()[j].name == name;
            assert(names@[j]@ == name);
        }
        if exists|i: int| 0 <= i < names@.len() && #[trigger] names@[i]@ == name {
            let j = choose|j: int| 0 <= j < names@.len() && #[trigger] names@[j]@ == name;
            assert(functions.named.deep_view()[j].name == name);
        }
    }
    let mut i: usize = 0;
    while i < n
        invariant
            n == functions.named.len(),
            n == old(functions).named.len(),
            i <= n,
            hf == host_functions.deep_view(),
            names_set == old(functions).deep_view().names(),
            functions.anonymous == old(functions).anonymous,
            forall|name: Seq<char>|
                names_set.contains(name) <==> exists|i: int|
                    0 <= i < names@.len() && #[trigger] names@[i]@ == name,
            forall|j: int| 0 <= j < i ==> #[trigger] functions.named@[j].deep_view()
                == spec_resolve_most_identifiers(old(functions).deep_view(), hf).named[j],
            forall|j: int| i <= j < n ==> #[trigger] functions.named@[j].deep_view()
                == old(functions).named@[j].deep_view(),
        decreases n - i,
    {
        let ghost prev = functions.named@;
        resolve_function(&mut functions.named[i].inner, host_functions, &names, Ghost(names_set));
        assert(functions.named@ == prev.update(i as int, functions.named@[i as int]));
        assert(prev[i as int].deep_view() == old(functions).named@[i as int].deep_view());
        assert(functions.named@[i as int].name == prev[i as int].name);
        assert(functions.named@[i as int].deep_view() == spec_resolve_most_identifiers(old(functions).deep_view(), hf).named[i as int]);
        i = i + 1;
    }
    let m = functions.anonymous.len();
    let mut k: usize = 0;
    while k < m
        invariant
            m == functions.anonymous.len(),
            m == old(functions).anonymous.len(),
            k <= m,
            hf == host_functions.deep_view(),
            names_set == old(functions).deep_view().names(),
            forall|name: Seq<char>|
                names_set.contains(name) <==> exists|i: int|
                    0 <= i < names@.len() && #[trigger] names@[i]@ == name,
            functions.named.deep_view() =~= spec_resolve_most_identifiers(old(functions).deep_view(), hf).named,
            forall|j: int| 0 <= j < k ==> #[trigger] functions.anonymous@[j].deep_view()
                == spec_resolve_most_identifiers(old(functions).deep_view(), hf).anonymous[j],
            forall|j: int| k <= j < m ==> #[trigger] functions.anonymous@[j].deep_view()
                == old(functions).anonymous@[j].deep_view(),
        decreases m - k,
    {
        let ghost prev = functions.anonymous@;
        resolve_function(&mut functions.anonymous[k].function, host_functions, &names, Ghost(names_set));
        assert(functions.anonymous@ == prev.update(k as int, functions.anonymous@[k as int]));
        assert(prev[k as int].deep_view() == old(functions).anonymous@[k as int].deep_view());
        assert(functions.anonymous@[k as int].location == prev[k as int].location);
        assert(functions.anonymous@[k as int].deep_view() == spec_resolve_most_identifiers(old(functions).deep_view(), hf).anonymous[k as int]);
        k = k + 1;
    }
    assert(functions.deep_view().anonymous =~= spec_resolve_most_identifiers(old(functions).deep_view(), hf).anonymous);
}

/// # Resolve all identifiers, except those referring to user-defined functions
///
/// The host is asked for its functions once; see
/// [`resolve_most_identifiers_with_host_functions`] for what follows from
/// them.
pub fn resolve_most_identifiers(functions: &mut Functions, host: &impl Host)
    ensures
        final(functions).deep_view() == spec_resolve_most_identifiers(
            old(functions).deep_view(),
            host.spec_functions(),
        ),
{
    let host_functions = host.functions();
    resolve_most_identifiers_with_host_functions(functions, &host_functions);
}

} // verus!
