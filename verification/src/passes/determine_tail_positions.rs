//! # Marking the expressions that are in tail position

use vstd::prelude::*;

use crate::code::{
    AnonymousFunctionView, Branch, BranchView, Expression, ExpressionView, Function, FunctionView,
    Functions, FunctionsView, NamedFunctionView,
};

verus! {

/// The position of the last expression in `body` that is not a comment
pub open spec fn last_non_comment(body: Seq<ExpressionView>) -> Option<int>
    decreases body.len(),
{
    if body.len() == 0 {
        None
    } else if body.last() is Comment {
        last_non_comment(body.drop_last())
    } else {
        Some(body.len() - 1)
    }
}

/// `body`, with its last expression that is not a comment marked as being in
/// tail position, if that expression is an unresolved identifier
pub open spec fn mark_tail_in_body(body: Seq<ExpressionView>) -> Seq<ExpressionView> {
    match last_non_comment(body) {
        Some(i) => match body[i] {
            ExpressionView::UnresolvedIdentifier {
                name,
                is_known_to_be_call_to_user_defined_function,
                ..
            } => body.update(
                i,
                ExpressionView::UnresolvedIdentifier {
                    name,
                    is_known_to_be_in_tail_position: true,
                    is_known_to_be_call_to_user_defined_function,
                },
            ),
            _ => body,
        },
        None => body,
    }
}

/// `branch`, with the tail position in its body marked
pub open spec fn mark_tail_in_branch(branch: BranchView) -> BranchView {
    BranchView { parameters: branch.parameters, body: mark_tail_in_body(branch.body) }
}

/// `function`, with the tail positions in all of its branches marked
pub open spec fn mark_tail_in_function(function: FunctionView) -> FunctionView {
    FunctionView { branches: function.branches.map_values(|b: BranchView| mark_tail_in_branch(b)) }
}

/// `functions`, with the tail positions in all of their branches marked
pub open spec fn spec_determine_tail_positions(functions: FunctionsView) -> FunctionsView {
    FunctionsView {
        named: functions.named.map_values(
            |f: NamedFunctionView|
                NamedFunctionView { name: f.name, inner: mark_tail_in_function(f.inner) },
        ),
        anonymous: functions.anonymous.map_values(
            |f: AnonymousFunctionView|
                AnonymousFunctionView {
                    location: f.location,
                    function: mark_tail_in_function(f.function),
                },
        ),
    }
}

pub(crate) proof fn lemma_last_non_comment(body: Seq<ExpressionView>, k: int)
    requires
        0 <= k <= body.len(),
        forall|j: int| k <= j < body.len() ==> #[trigger] body[j] is Comment,
    ensures
        last_non_comment(body) == last_non_comment(body.take(k)),
    decreases body.len() - k,
{
    if k < body.len() {
        assert(body.drop_last().take(k) =~= body.take(k));
        lemma_last_non_comment(body.drop_last(), k);
    } else {
        assert(body.take(k) =~= body);
    }
}

fn analyze_branch(branch: &mut Branch)
    ensures
        final(branch).deep_view() == mark_tail_in_branch(old(branch).deep_view()),
{
    let ghost body = branch.body.deep_view();
    let mut i = branch.body.len();
    while i > 0
        invariant
            i <= branch.body.len(),
            branch.body.deep_view() == body,
            branch.parameters.deep_view() == old(branch).parameters.deep_view(),
            body == old(branch).body.deep_view(),
            forall|j: int| i <= j < body.len() ==> #[trigger] body[j] is Comment,
        decreases i,
    {
        if let Expression::Comment { .. } = &branch.body[i - 1] {
            i = i - 1;
            continue;
        }
        proof {
            lemma_last_non_comment(body, i as int);
            assert(body.take(i as int).drop_last() =~= body.take(i - 1));
        }
        let expression = &mut branch.body[i - 1];
        if let Expression::UnresolvedIdentifier { is_known_to_be_in_tail_position, .. } =
            expression
        {
            *is_known_to_be_in_tail_position = true;
        }
        assert(branch.body.deep_view() =~= mark_tail_in_body(body));
        return;
    }
    proof {
        lemma_last_non_comment(body, 0);
    }
}

fn analyze_function(function: &mut Function)
    ensures
        final(function).deep_view() == mark_tail_in_function(old(function).deep_view()),
{
    let n = function.branches.len();
    let mut i: usize = 0;
    while i < n
        invariant
            n == function.branches.len(),
            i <= n,
            n == old(function).branches.len(),
            forall|j: int| 0 <= j < i ==> #[trigger] function.branches@[j].deep_view()
                == mark_tail_in_branch(old(function).branches@[j].deep_view()),
            forall|j: int| i <= j < n ==> #[trigger] function.branches@[j].deep_view()
                == old(function).branches@[j].deep_view(),
        decreases n - i,
    {
        let ghost prev = function.branches@;
        analyze_branch(&mut function.branches[i]);
        assert(function.branches@ == prev.update(i as int, function.branches@[i as int]));
        assert(function.branches@[i as int].deep_view() == mark_tail_in_branch(prev[i as int].deep_view()));
        i = i + 1;
    }
    assert(function.deep_view().branches =~= mark_tail_in_function(old(function).deep_view()).branches);
}

/// # Mark the expressions in tail position
///
/// In every branch of every function, named and anonymous, the last expression
/// that is not a comment is in tail position. If that expression is an
/// unresolved identifier, it is marked as such.
pub fn determine_tail_positions(functions: &mut Functions)
    ensures
        final(functions).deep_view() == spec_determine_tail_positions(old(functions).deep_view()),
{
    let n = functions.named.len();
    let mut i: usize = 0;
    while i < n
        invariant
            n == functions.named.len(),
            i <= n,
            n == old(functions).named.len(),
            functions.anonymous == old(functions).anonymous,
            forall|j: int| 0 <= j < i ==> #[trigger] functions.named@[j].deep_view()
                == (NamedFunctionView {
                    name: old(functions).named@[j].deep_view().name,
                    inner: mark_tail_in_function(old(functions).named@[j].deep_view().inner),
                }),
            forall|j: int| i <= j < n ==> #[trigger] functions.named@[j].deep_view()
                == old(functions).named@[j].deep_view(),
        decreases n - i,
    {
        let ghost prev = functions.named@;
        analyze_function(&mut functions.named[i].inner);
        assert(functions.named@ == prev.update(i as int, functions.named@[i as int]));
        assert(functions.named@[i as int].name == prev[i as int].name);
        assert(functions.named@[i as int].inner.deep_view() == mark_tail_in_function(prev[i as int].inner.deep_view()));
        assert(prev[i as int].deep_view() == old(functions).named@[i as int].deep_view());
        assert(functions.named@[i as int].deep_view() == (NamedFunctionView {
            name: old(functions).named@[i as int].deep_view().name,
            inner: mark_tail_in_function(old(functions).named@[i as int].deep_view().inner),
        }));
        i = i + 1;
    }
    let m = functions.anonymous.len();
    let mut k: usize = 0;
    while k < m
        invariant
            m == functions.anonymous.len(),
            k <= m,
            m == old(functions).anonymous.len(),
            functions.named.deep_view() == spec_determine_tail_positions(
                old(functions).deep_view(),
            ).named,
            forall|j: int| 0 <= j < k ==> #[trigger] functions.anonymous@[j].deep_view()
                == (AnonymousFunctionView {
                    location: old(functions).anonymous@[j].deep_view().location,
                    function: mark_tail_in_function(old(functions).anonymous@[j].deep_view().function),
                }),
            forall|j: int| k <= j < m ==> #[trigger] functions.anonymous@[j].deep_view()
                == old(functions).anonymous@[j].deep_view(),
        decreases m - k,
    {
        let ghost prev = functions.anonymous@;
        analyze_function(&mut functions.anonymous[k].function);
        assert(functions.anonymous@ == prev.update(k as int, functions.anonymous@[k as int]));
        assert(functions.anonymous@[k as int].location == prev[k as int].location);
        assert(functions.anonymous@[k as int].function.deep_view() == mark_tail_in_function(prev[k as int].function.deep_view()));
        assert(prev[k as int].deep_view() == old(functions).anonymous@[k as int].deep_view());
        k = k + 1;
    }
    assert(functions.deep_view().anonymous =~= spec_determine_tail_positions(old(functions).deep_view()).anonymous);
}


proof fn lemma_last_non_comment_update(body: Seq<ExpressionView>, i: int, e: ExpressionView)
    requires
        last_non_comment(body) == Some(i),
        !(e is Comment),
    ensures
        last_non_comment(body.update(i, e)) == Some(i),
    decreases body.len(),
{
    if body.last() is Comment {
        lemma_last_non_comment_properties(body.drop_last());
        lemma_last_non_comment_update(body.drop_last(), i, e);
        assert(body.update(i, e).drop_last() =~= body.drop_last().update(i, e));
    }
}

proof fn lemma_mark_tail_in_body_idempotent(body: Seq<ExpressionView>)
    ensures
        mark_tail_in_body(mark_tail_in_body(body)) == mark_tail_in_body(body),
{
    if let Some(i) = last_non_comment(body) {
        if let ExpressionView::UnresolvedIdentifier {
            name,
            is_known_to_be_call_to_user_defined_function,
            ..
        } = body[i] {
            let e = ExpressionView::UnresolvedIdentifier {
                name,
                is_known_to_be_in_tail_position: true,
                is_known_to_be_call_to_user_defined_function,
            };
            lemma_last_non_comment_properties(body);
            lemma_last_non_comment_update(body, i, e);
            assert(body.update(i, e).update(i, e) =~= body.update(i, e));
        }
    }
}

proof fn lemma_last_non_comment_properties(body: Seq<ExpressionView>)
    ensures
        last_non_comment(body) matches Some(i) ==> 0 <= i < body.len() && !(body[i] is Comment),
    decreases body.len(),
{
    if body.len() > 0 && body.last() is Comment {
        lemma_last_non_comment_properties(body.drop_last());
    }
}

/// Marking tail positions a second time changes nothing.
pub proof fn determine_tail_positions_is_idempotent(functions: FunctionsView)
    ensures
        spec_determine_tail_positions(spec_determine_tail_positions(functions))
            == spec_determine_tail_positions(functions),
{
    assert forall|f: FunctionView| #[trigger] mark_tail_in_function(mark_tail_in_function(f))
        == mark_tail_in_function(f) by {
        assert forall|j: int| 0 <= j < f.branches.len() implies #[trigger] mark_tail_in_branch(
            mark_tail_in_branch(f.branches[j]),
        ) == mark_tail_in_branch(f.branches[j]) by {
            lemma_mark_tail_in_body_idempotent(f.branches[j].body);
        }
        assert(mark_tail_in_function(mark_tail_in_function(f)).branches
            =~= mark_tail_in_function(f).branches);
    }
    let once = spec_determine_tail_positions(functions);
    let twice = spec_determine_tail_positions(once);
    assert(twice.named =~= once.named);
    assert(twice.anonymous =~= once.anonymous);
}

/// Marking tail positions changes no name, location, parameter or body length,
/// and no expression but the unresolved identifiers.
pub proof fn determine_tail_positions_keeps_shape(functions: FunctionsView, i: int, b: int, e: int)
    requires
        0 <= i < functions.named.len(),
        0 <= b < functions.named[i].inner.branches.len(),
        0 <= e < functions.named[i].inner.branches[b].body.len(),
    ensures
        ({
            let before = functions.named[i].inner.branches[b];
            let after = spec_determine_tail_positions(functions).named[i].inner.branches[b];
            &&& spec_determine_tail_positions(functions).named[i].name == functions.named[i].name
            &&& after.parameters == before.parameters
            &&& after.body.len() == before.body.len()
            &&& !(before.body[e] is UnresolvedIdentifier) ==> after.body[e] == before.body[e]
        }),
{
    lemma_last_non_comment_properties(functions.named[i].inner.branches[b].body);
}

/// Whether expression `k` of `body` is an unresolved identifier that only
/// comments follow
pub open spec fn is_last_identifier(body: Seq<ExpressionView>, k: int) -> bool {
    &&& 0 <= k < body.len()
    &&& body[k] is UnresolvedIdentifier
    &&& forall|j: int| k < j < body.len() ==> #[trigger] body[j] is Comment
}

/// `expression`, an unresolved identifier, marked as being in tail position
pub open spec fn marked_in_tail_position(expression: ExpressionView) -> ExpressionView {
    match expression {
        ExpressionView::UnresolvedIdentifier { name, is_known_to_be_call_to_user_defined_function, .. } =>
            ExpressionView::UnresolvedIdentifier {
            name,
            is_known_to_be_in_tail_position: true,
            is_known_to_be_call_to_user_defined_function,
        },
        _ => expression,
    }
}

proof fn lemma_last_is(body: Seq<ExpressionView>, k: int)
    requires
        is_last_identifier(body, k),
    ensures
        last_non_comment(body) == Some(k),
    decreases body.len(),
{
    if body.len() - 1 > k {
        assert(body.last() is Comment);
        lemma_last_is(body.drop_last(), k);
    }
}

proof fn lemma_body_marks_last(body: Seq<ExpressionView>, k: int)
    requires
        is_last_identifier(body, k),
    ensures
        mark_tail_in_body(body)[k] == marked_in_tail_position(body[k]),
        mark_tail_in_body(body).len() == body.len(),
{
    lemma_last_is(body, k);
}

/// In every branch of every function, named or anonymous, an unresolved
/// identifier that only comments follow is marked as being in tail position,
/// whatever the branch's position in its function.
pub proof fn last_identifier_of_every_branch_is_in_tail_position(functions: FunctionsView, b: int, k: int)
    ensures
        forall|i: int|
            0 <= i < functions.named.len() && 0 <= b < functions.named[i].inner.branches.len()
                && is_last_identifier(#[trigger] functions.named[i].inner.branches[b].body, k) ==> {
                let result = spec_determine_tail_positions(functions).named[i].inner.branches[b].body;
                result[k] == marked_in_tail_position(functions.named[i].inner.branches[b].body[k])
            },
        forall|i: int|
            0 <= i < functions.anonymous.len() && 0 <= b < functions.anonymous[i].function.branches.len()
                && is_last_identifier(#[trigger] functions.anonymous[i].function.branches[b].body, k) ==> {
                let result = spec_determine_tail_positions(functions).anonymous[i].function.branches[b].body;
                result[k] == marked_in_tail_position(functions.anonymous[i].function.branches[b].body[k])
            },
{
    assert forall|i: int|
        0 <= i < functions.named.len() && 0 <= b < functions.named[i].inner.branches.len()
            && is_last_identifier(#[trigger] functions.named[i].inner.branches[b].body, k) implies {
            let result = spec_determine_tail_positions(functions).named[i].inner.branches[b].body;
            result[k] == marked_in_tail_position(functions.named[i].inner.branches[b].body[k])
        } by {
        lemma_body_marks_last(functions.named[i].inner.branches[b].body, k);
    }
    assert forall|i: int|
        0 <= i < functions.anonymous.len() && 0 <= b < functions.anonymous[i].function.branches.len()
            && is_last_identifier(#[trigger] functions.anonymous[i].function.branches[b].body, k) implies {
            let result = spec_determine_tail_positions(functions).anonymous[i].function.branches[b].body;
            result[k] == marked_in_tail_position(functions.anonymous[i].function.branches[b].body[k])
        } by {
        lemma_body_marks_last(functions.anonymous[i].function.branches[b].body, k);
    }
}

} // verus!
