//! # Parsing tokens into functions

use vstd::prelude::*;

use std::collections::VecDeque;

use crate::code::{
    AnonymousFunction, AnonymousFunctionView, Branch, BranchView, Expression, ExpressionView,
    Function, FunctionView, Functions, FunctionsView, NamedFunction, NamedFunctionView, Pattern,
    PatternView, Value,
};
use crate::location::{FragmentLocation, FunctionIndexInRootContext, FunctionLocation};
use crate::passes::resolve_recursive_local_functions::location_in;
use crate::tokens::{Token, TokenView};

verus! {

/// # The outcome of parsing a part of the token sequence
pub ghost enum Parse<T> {
    /// The part was parsed; parsing goes on at `end`
    Parsed { value: T, end: int },
    /// The tokens ran out before the part was complete
    Exhausted,
    /// A token that the grammar does not allow where it stands
    Unexpected,
}

/// # A function that has been parsed, with the anonymous functions in it
pub ghost struct ParsedFunction {
    pub function: FunctionView,
    pub anonymous: Seq<AnonymousFunctionView>,
}

/// The parameters of a branch, starting at `pos`, after the ones in
/// `parameters`; `None` where a token is unexpected
///
/// A parameter is an identifier or an integer literal. Parameters are separated
/// by `,`, and the list ends with `->`; it also ends where the tokens run out.
pub open spec fn parsed_parameters(
    tokens: Seq<TokenView>,
    pos: int,
    parameters: Seq<PatternView>,
) -> Option<(Seq<PatternView>, int)>
    decreases tokens.len() - pos,
{
    if pos < 0 || pos >= tokens.len() {
        Some((parameters, pos))
    } else {
        let pattern = match tokens[pos] {
            TokenView::Identifier { name } => Some(PatternView::Identifier { name }),
            TokenView::IntegerLiteral { value } => Some(PatternView::Literal { value: Value(value) }),
            _ => None,
        };
        match pattern {
            None => if tokens[pos] is BranchBodyStart {
                Some((parameters, pos + 1))
            } else {
                None
            },
            Some(pattern) => {
                let parameters = parameters.push(pattern);
                if pos + 1 >= tokens.len() {
                    Some((parameters, pos + 1))
                } else if tokens[pos + 1] is Delimiter {
                    parsed_parameters(tokens, pos + 2, parameters)
                } else if tokens[pos + 1] is BranchBodyStart {
                    Some((parameters, pos + 2))
                } else {
                    None
                }
            },
        }
    }
}

/// A function, starting at `pos` with `fn` and concluded by `end`, whose
/// location is `location`
pub open spec fn parsed_function(
    tokens: Seq<TokenView>,
    pos: int,
    location: FunctionLocation,
) -> Parse<ParsedFunction>
    decreases tokens.len() - pos, 0int,
{
    if pos < 0 || pos >= tokens.len() {
        Parse::Exhausted
    } else if !(tokens[pos] is KeywordFn) {
        Parse::Unexpected
    } else {
        match parsed_branches(tokens, pos + 1, location, seq![], seq![]) {
            Some((branches, anonymous, end)) => if end < 0 || end >= tokens.len() {
                Parse::Exhausted
            } else if tokens[end] is KeywordEnd {
                Parse::Parsed {
                    value: ParsedFunction { function: FunctionView { branches }, anonymous },
                    end: end + 1,
                }
            } else {
                Parse::Unexpected
            },
            None => Parse::Unexpected,
        }
    }
}

/// The branches of a function, starting at `pos`, after `branches`; `None`
/// where a token is unexpected
pub open spec fn parsed_branches(
    tokens: Seq<TokenView>,
    pos: int,
    location: FunctionLocation,
    branches: Seq<BranchView>,
    anonymous: Seq<AnonymousFunctionView>,
) -> Option<(Seq<BranchView>, Seq<AnonymousFunctionView>, int)>
    decreases tokens.len() - pos, 1int,
{
    if pos < 0 || pos >= tokens.len() || tokens[pos] is KeywordEnd {
        Some((branches, anonymous, pos))
    } else if !(tokens[pos] is BranchStart) {
        None
    } else {
        match parsed_parameters(tokens, pos + 1, seq![]) {
            None => None,
            Some((parameters, body_start)) => if body_start <= pos || body_start > tokens.len() {
                None
            } else {
                match parsed_body(tokens, body_start, location, branches.len() as int, seq![], seq![]) {
                    None => None,
                    Some((body, inner, end)) => if end <= pos || end > tokens.len() {
                        None
                    } else {
                        parsed_branches(
                            tokens,
                            end,
                            location,
                            branches.push(BranchView { parameters, body }),
                            anonymous + inner,
                        )
                    },
                }
            },
        }
    }
}

/// The body of branch `b` of the function at `location`, starting at `pos`,
/// after `body`; `None` where a token is unexpected
///
/// The body ends before `\` or `end`, or where the tokens run out. A function
/// literal in the body is tracked as an anonymous function at the literal's
/// location; one that the tokens run out in is dropped.
pub open spec fn parsed_body(
    tokens: Seq<TokenView>,
    pos: int,
    location: FunctionLocation,
    b: int,
    body: Seq<ExpressionView>,
    anonymous: Seq<AnonymousFunctionView>,
) -> Option<(Seq<ExpressionView>, Seq<AnonymousFunctionView>, int)>
    decreases tokens.len() - pos, 1int,
{
    if pos < 0 || pos >= tokens.len() {
        Some((body, anonymous, pos))
    } else {
        match tokens[pos] {
            TokenView::KeywordFn => {
                let literal = location_in(location, b, body.len() as int);
                match parsed_function(tokens, pos, FunctionLocation::AnonymousFunction { location: literal }) {
                    Parse::Parsed { value, end } => if end <= pos || end > tokens.len() {
                        None
                    } else {
                        parsed_body(
                            tokens,
                            end,
                            location,
                            b,
                            body.push(ExpressionView::UnresolvedLocalFunction),
                            anonymous.push(AnonymousFunctionView { location: literal, function: value.function })
                                + value.anonymous,
                        )
                    },
                    Parse::Exhausted => Some((body, anonymous, tokens.len() as int)),
                    Parse::Unexpected => None,
                }
            },
            TokenView::BranchStart => Some((body, anonymous, pos)),
            TokenView::KeywordEnd => Some((body, anonymous, pos)),
            TokenView::Comment { text } => parsed_body(
                tokens,
                pos + 1,
                location,
                b,
                body.push(ExpressionView::Comment { text }),
                anonymous,
            ),
            TokenView::Identifier { name } => parsed_body(
                tokens,
                pos + 1,
                location,
                b,
                body.push(
                    ExpressionView::UnresolvedIdentifier {
                        name,
                        is_known_to_be_in_tail_position: false,
                        is_known_to_be_call_to_user_defined_function: false,
                    },
                ),
                anonymous,
            ),
            TokenView::IntegerLiteral { value } => parsed_body(
                tokens,
                pos + 1,
                location,
                b,
                body.push(ExpressionView::Value(Value(value))),
                anonymous,
            ),
            _ => None,
        }
    }
}

/// A named function, starting at `pos`, which becomes the named function at
/// `index`: comments, then the function's name, then the function
pub open spec fn parsed_named_function(tokens: Seq<TokenView>, pos: int, index: int) -> Parse<
    (NamedFunctionView, Seq<AnonymousFunctionView>),
>
    decreases tokens.len() - pos,
{
    if pos < 0 || pos >= tokens.len() {
        Parse::Exhausted
    } else {
        match tokens[pos] {
            TokenView::Comment { .. } => parsed_named_function(tokens, pos + 1, index),
            TokenView::FunctionName { name } => match parsed_function(
                tokens,
                pos + 1,
                FunctionLocation::NamedFunction { index: FunctionIndexInRootContext(index as u32) },
            ) {
                Parse::Parsed { value, end } => Parse::Parsed {
                    value: (NamedFunctionView { name, inner: value.function }, value.anonymous),
                    end,
                },
                Parse::Exhausted => Parse::Exhausted,
                Parse::Unexpected => Parse::Unexpected,
            },
            _ => Parse::Unexpected,
        }
    }
}

/// The named functions from `pos` on, after `functions`; `None` where a token
/// is unexpected
///
/// Parsing ends where the tokens run out; a function that they run out in is
/// dropped.
pub open spec fn parsed_named_functions(tokens: Seq<TokenView>, pos: int, functions: FunctionsView) -> Option<
    FunctionsView,
>
    decreases tokens.len() - pos,
{
    match parsed_named_function(tokens, pos, functions.named.len() as int) {
        Parse::Parsed { value, end } => if end <= pos || end > tokens.len() {
            None
        } else {
            parsed_named_functions(
                tokens,
                end,
                FunctionsView {
                    named: functions.named.push(value.0),
                    anonymous: functions.anonymous + value.1,
                },
            )
        },
        Parse::Exhausted => Some(functions),
        Parse::Unexpected => None,
    }
}

/// The functions that `tokens` define; `None`, where a token is unexpected
pub open spec fn spec_parse(tokens: Seq<TokenView>) -> Option<FunctionsView> {
    parsed_named_functions(tokens, 0, FunctionsView { named: seq![], anonymous: seq![] })
}

proof fn lemma_parameters_advance(tokens: Seq<TokenView>, pos: int, parameters: Seq<PatternView>)
    requires
        0 <= pos <= tokens.len(),
    ensures
        parsed_parameters(tokens, pos, parameters) matches Some((_, end)) ==> pos <= end <= tokens.len()
            && (pos < tokens.len() ==> pos < end),
    decreases tokens.len() - pos,
{
    if pos < tokens.len() && pos + 2 <= tokens.len() {
        match tokens[pos] {
            TokenView::Identifier { name } => {
                lemma_parameters_advance(tokens, pos + 2, parameters.push(PatternView::Identifier { name }));
            },
            TokenView::IntegerLiteral { value } => {
                lemma_parameters_advance(tokens, pos + 2, parameters.push(PatternView::Literal { value: Value(value) }));
            },
            _ => {},
        }
    }
}

proof fn lemma_function_advances(tokens: Seq<TokenView>, pos: int, location: FunctionLocation)
    requires
        0 <= pos <= tokens.len(),
    ensures
        parsed_function(tokens, pos, location) matches Parse::Parsed { end, .. } ==> pos < end <= tokens.len(),
    decreases tokens.len() - pos, 0int,
{
    if pos < tokens.len() && tokens[pos] is KeywordFn {
        lemma_branches_advance(tokens, pos + 1, location, seq![], seq![]);
    }
}

proof fn lemma_branches_advance(
    tokens: Seq<TokenView>,
    pos: int,
    location: FunctionLocation,
    branches: Seq<BranchView>,
    anonymous: Seq<AnonymousFunctionView>,
)
    requires
        0 <= pos <= tokens.len(),
    ensures
        parsed_branches(tokens, pos, location, branches, anonymous) matches Some((_, _, end)) ==> pos <= end
            <= tokens.len(),
    decreases tokens.len() - pos, 1int,
{
    if !(pos >= tokens.len() || tokens[pos] is KeywordEnd) && tokens[pos] is BranchStart {
        lemma_parameters_advance(tokens, pos + 1, seq![]);
        if let Some((parameters, body_start)) = parsed_parameters(tokens, pos + 1, seq![]) {
            if !(body_start <= pos || body_start > tokens.len()) {
                lemma_body_advances(tokens, body_start, location, branches.len() as int, seq![], seq![]);
                if let Some((body, inner, end)) = parsed_body(tokens, body_start, location, branches.len() as int, seq![], seq![]) {
                    if !(end <= pos || end > tokens.len()) {
                        lemma_branches_advance(tokens, end, location, branches.push(BranchView { parameters, body }), anonymous + inner);
                    }
                }
            }
        }
    }
}

proof fn lemma_body_advances(
    tokens: Seq<TokenView>,
    pos: int,
    location: FunctionLocation,
    b: int,
    body: Seq<ExpressionView>,
    anonymous: Seq<AnonymousFunctionView>,
)
    requires
        0 <= pos <= tokens.len(),
    ensures
        parsed_body(tokens, pos, location, b, body, anonymous) matches Some((_, _, end)) ==> pos <= end
            <= tokens.len(),
    decreases tokens.len() - pos, 1int,
{
    if pos < tokens.len() {
        match tokens[pos] {
            TokenView::KeywordFn => {
                let literal = location_in(location, b, body.len() as int);
                lemma_function_advances(tokens, pos, FunctionLocation::AnonymousFunction { location: literal });
                if let Parse::Parsed { value, end } = parsed_function(tokens, pos, FunctionLocation::AnonymousFunction { location: literal }) {
                    lemma_body_advances(
                        tokens,
                        end,
                        location,
                        b,
                        body.push(ExpressionView::UnresolvedLocalFunction),
                        anonymous.push(AnonymousFunctionView { location: literal, function: value.function })
                            + value.anonymous,
                    );
                }
            },
            TokenView::Comment { text } => {
                lemma_body_advances(tokens, pos + 1, location, b, body.push(ExpressionView::Comment { text }), anonymous);
            },
            TokenView::Identifier { name } => {
                lemma_body_advances(
                    tokens,
                    pos + 1,
                    location,
                    b,
                    body.push(
                        ExpressionView::UnresolvedIdentifier {
                            name,
                            is_known_to_be_in_tail_position: false,
                            is_known_to_be_call_to_user_defined_function: false,
                        },
                    ),
                    anonymous,
                );
            },
            TokenView::IntegerLiteral { value } => {
                lemma_body_advances(tokens, pos + 1, location, b, body.push(ExpressionView::Value(Value(value))), anonymous);
            },
            _ => {},
        }
    }
}

proof fn lemma_named_function_advances(tokens: Seq<TokenView>, pos: int, index: int)
    requires
        0 <= pos <= tokens.len(),
    ensures
        parsed_named_function(tokens, pos, index) matches Parse::Parsed { end, .. } ==> pos < end <= tokens.len(),
    decreases tokens.len() - pos,
{
    if pos < tokens.len() {
        match tokens[pos] {
            TokenView::Comment { .. } => {
                lemma_named_function_advances(tokens, pos + 1, index);
            },
            TokenView::FunctionName { .. } => {
                lemma_function_advances(tokens, pos + 1, FunctionLocation::NamedFunction { index: FunctionIndexInRootContext(index as u32) });
            },
            _ => {},
        }
    }
}


/// # The tokens that are still to be parsed
pub struct Tokens {
    inner: VecDeque<Token>,
}

impl View for Tokens {
    type V = Seq<TokenView>;

    closed spec fn view(&self) -> Seq<TokenView> {
        self.inner.deep_view()
    }
}

impl Tokens {
    /// # Prepare tokens for parsing
    pub fn new(tokens: Vec<Token>) -> (r: Tokens)
        ensures
            r@ == tokens.deep_view(),
    {
        let mut tokens = tokens;
        let mut inner: VecDeque<Token> = VecDeque::new();
        let ghost all = tokens.deep_view();
        let n = tokens.len();
        let mut moved = Vec::new();
        // move the tokens out of the vector, last first
        while tokens.len() > 0
            invariant
                tokens.deep_view() + moved.deep_view().reverse() == all,
            decreases tokens.len(),
        {
            let ghost before_tokens = tokens.deep_view();
            let ghost before_moved = moved.deep_view();
            let t = tokens.pop().unwrap();
            moved.push(t);
            assert(tokens.deep_view() =~= before_tokens.drop_last());
            assert(moved.deep_view() =~= before_moved.push(before_tokens.last()));
            assert(moved.deep_view().reverse() =~= seq![before_tokens.last()] + before_moved.reverse());
            assert(tokens.deep_view() + moved.deep_view().reverse() =~= before_tokens + before_moved.reverse());
        }
        assert(moved.deep_view().reverse() =~= all);
        while moved.len() > 0
            invariant
                inner.deep_view() + moved.deep_view().reverse() == all,
            decreases moved.len(),
        {
            let ghost before_inner = inner.deep_view();
            let ghost before_moved = moved.deep_view();
            let t = moved.pop().unwrap();
            inner.push_back(t);
            assert(inner.deep_view() =~= before_inner.push(before_moved.last()));
            assert(moved.deep_view() =~= before_moved.drop_last());
            assert(before_moved.reverse() =~= seq![before_moved.last()] + before_moved.drop_last().reverse());
            assert(inner.deep_view() + moved.deep_view().reverse() =~= before_inner + before_moved.reverse());
        }
        assert(inner.deep_view() =~= all);
        let _ = n;
        Tokens { inner }
    }

    /// # The next token, without taking it
    pub fn peek(&self) -> (r: Option<&Token>)
        ensures
            r is None <==> self@.len() == 0,
            r matches Some(t) ==> t.deep_view() == self@[0],
    {
        if self.inner.len() > 0 {
            Some(&self.inner[0])
        } else {
            None
        }
    }

    /// # Take the next token
    pub fn take(&mut self) -> (r: Option<Token>)
        ensures
            old(self)@.len() == 0 ==> r is None && final(self)@ == old(self)@,
            old(self)@.len() > 0 ==> (r matches Some(t) && t.deep_view() == old(self)@[0]
                && final(self)@ == old(self)@.drop_first()),
    {
        let r = self.inner.pop_front();
        proof {
            if old(self)@.len() > 0 {
                assert(self@ =~= old(self)@.drop_first());
            }
        }
        r
    }
}

/// Whether `rest` is what remains of `all` after some tokens were taken
pub open spec fn is_rest_of(rest: Seq<TokenView>, all: Seq<TokenView>) -> bool {
    rest.len() <= all.len() && rest == all.skip(all.len() - rest.len())
}

/// The position in `all` at which `rest` starts
pub open spec fn position_of(rest: Seq<TokenView>, all: Seq<TokenView>) -> int {
    all.len() - rest.len()
}

proof fn lemma_rest_step(rest: Seq<TokenView>, all: Seq<TokenView>)
    requires
        is_rest_of(rest, all),
        rest.len() > 0,
    ensures
        is_rest_of(rest.drop_first(), all),
        rest[0] == all[position_of(rest, all)],
        position_of(rest.drop_first(), all) == position_of(rest, all) + 1,
{
    assert(rest.drop_first() =~= all.skip(all.len() - rest.len() + 1));
}

fn parse_branch_parameters(tokens: &mut Tokens, all: Ghost<Seq<TokenView>>) -> (r: Vec<Pattern>)
    requires
        is_rest_of(old(tokens)@, all@),
        parsed_parameters(all@, position_of(old(tokens)@, all@), seq![]) is Some,
    ensures
        is_rest_of(final(tokens)@, all@),
        parsed_parameters(all@, position_of(old(tokens)@, all@), seq![]) == Some(
            (r.deep_view(), position_of(final(tokens)@, all@)),
        ),
{
    let ghost start = position_of(tokens@, all@);
    let mut parameters: Vec<Pattern> = Vec::new();
    assert(parameters.deep_view() =~= Seq::<PatternView>::empty());
    loop
        invariant
            is_rest_of(tokens@, all@),
            parsed_parameters(all@, start, seq![]) == parsed_parameters(
                all@,
                position_of(tokens@, all@),
                parameters.deep_view(),
            ),
            parsed_parameters(all@, start, seq![]) is Some,
            start == position_of(old(tokens)@, all@),
        decreases tokens@.len(),
    {
        let ghost rest = tokens@;
        let ghost before = parameters.deep_view();
        let token = match tokens.take() {
            Some(token) => token,
            None => {
                return parameters;
            },
        };
        proof {
            lemma_rest_step(rest, all@);
        }
        match token {
            Token::Identifier { name } => {
                parameters.push(Pattern::Identifier { name });
            },
            Token::IntegerLiteral { value } => {
                parameters.push(Pattern::Literal { value: Value(value) });
            },
            Token::BranchBodyStart => {
                return parameters;
            },
            _ => {
                assert(false);
                return parameters;
            },
        }
        let ghost with = parameters.deep_view();
        assert(with =~= before.push(with.last()));
        let ghost rest1 = tokens@;
        match tokens.take() {
            Some(Token::Delimiter) => {
                proof {
                    lemma_rest_step(rest1, all@);
                }
            },
            Some(Token::BranchBodyStart) => {
                proof {
                    lemma_rest_step(rest1, all@);
                }
                return parameters;
            },
            None => {
                return parameters;
            },
            Some(_) => {
                proof {
                    lemma_rest_step(rest1, all@);
                }
                assert(false);
                return parameters;
            },
        }
    }
}


/// Whether `r` holds, as exec values, what parsing a function produced
pub open spec fn parsed_function_is(
    r: Option<(Function, Vec<AnonymousFunction>)>,
    parsed: Parse<ParsedFunction>,
    end: int,
) -> bool {
    match parsed {
        Parse::Parsed { value, end: e } => r matches Some((f, a)) && f.deep_view() == value.function
            && a.deep_view() == value.anonymous && end == e,
        Parse::Exhausted => r is None,
        Parse::Unexpected => false,
    }
}

fn parse_function(tokens: &mut Tokens, all: Ghost<Seq<TokenView>>, location: &FunctionLocation) -> (r:
    Option<(Function, Vec<AnonymousFunction>)>)
    requires
        is_rest_of(old(tokens)@, all@),
        !(parsed_function(all@, position_of(old(tokens)@, all@), *location) is Unexpected),
    ensures
        is_rest_of(final(tokens)@, all@),
        parsed_function_is(
            r,
            parsed_function(all@, position_of(old(tokens)@, all@), *location),
            position_of(final(tokens)@, all@),
        ),
        r is None ==> final(tokens)@.len() == 0,
    decreases old(tokens)@.len(), 0int,
{
    let ghost start = position_of(tokens@, all@);
    let ghost rest = tokens@;
    match tokens.take() {
        Some(Token::KeywordFn) => {},
        None => {
            return None;
        },
        Some(_) => {
            proof {
                lemma_rest_step(rest, all@);
            }
            assert(false);
            return None;
        },
    }
    proof {
        lemma_rest_step(rest, all@);
    }
    let mut branches: Vec<Branch> = Vec::new();
    let mut anonymous: Vec<AnonymousFunction> = Vec::new();
    assert(branches.deep_view() =~= Seq::<BranchView>::empty());
    assert(anonymous.deep_view() =~= Seq::<AnonymousFunctionView>::empty());
    loop
        invariant
            is_rest_of(tokens@, all@),
            tokens@.len() < old(tokens)@.len(),
            start == position_of(old(tokens)@, all@),
            all@[start] is KeywordFn,
            parsed_branches(all@, start + 1, *location, seq![], seq![]) is Some,
            parsed_branches(all@, start + 1, *location, seq![], seq![]) == parsed_branches(
                all@,
                position_of(tokens@, all@),
                *location,
                branches.deep_view(),
                anonymous.deep_view(),
            ),
        ensures
            is_rest_of(tokens@, all@),
            tokens@.len() == 0 || tokens@[0] is KeywordEnd,
            parsed_branches(all@, start + 1, *location, seq![], seq![]) == parsed_branches(
                all@,
                position_of(tokens@, all@),
                *location,
                branches.deep_view(),
                anonymous.deep_view(),
            ),
        decreases tokens@.len(),
    {
        let ghost pos = position_of(tokens@, all@);
        match tokens.peek() {
            None => {
                break;
            },
            Some(Token::KeywordEnd) => {
                break;
            },
            Some(Token::BranchStart) => {},
            Some(_) => {
                assert(false);
                break;
            },
        }
        let ghost rest = tokens@;
        let _ = tokens.take();
        proof {
            lemma_rest_step(rest, all@);
            lemma_parameters_advance(all@, pos + 1, seq![]);
        }
        let parameters = parse_branch_parameters(tokens, all);
        let ghost body_start = position_of(tokens@, all@);
        proof {
            lemma_body_advances(all@, body_start, *location, branches.len() as int, seq![], seq![]);
        }
        let (body, mut inner) = parse_branch_body(tokens, all, location, branches.len());
        let ghost before_branches = branches.deep_view();
        let ghost before_anonymous = anonymous.deep_view();
        let ghost inner_view = inner.deep_view();
        let ghost parameters_view = parameters.deep_view();
        let ghost body_view = body.deep_view();
        branches.push(Branch { parameters, body });
        anonymous.append(&mut inner);
        assert(branches.deep_view() =~= before_branches.push(BranchView { parameters: parameters_view, body: body_view }));
        assert(anonymous.deep_view() =~= before_anonymous + inner_view);
    }
    let ghost end = position_of(tokens@, all@);
    proof {
        lemma_branches_advance(all@, start + 1, *location, seq![], seq![]);
    }
    let ghost rest = tokens@;
    match tokens.take() {
        Some(Token::KeywordEnd) => {
            proof {
                lemma_rest_step(rest, all@);
            }
            Some((Function { branches }, anonymous))
        },
        None => None,
        Some(_) => {
            proof {
                lemma_rest_step(rest, all@);
            }
            assert(false);
            None
        },
    }
}


fn parse_branch_body(
    tokens: &mut Tokens,
    all: Ghost<Seq<TokenView>>,
    location: &FunctionLocation,
    b: usize,
) -> (r: (Vec<Expression>, Vec<AnonymousFunction>))
    requires
        is_rest_of(old(tokens)@, all@),
        parsed_body(all@, position_of(old(tokens)@, all@), *location, b as int, seq![], seq![]) is Some,
    ensures
        is_rest_of(final(tokens)@, all@),
        parsed_body(all@, position_of(old(tokens)@, all@), *location, b as int, seq![], seq![]) == Some(
            (r.0.deep_view(), r.1.deep_view(), position_of(final(tokens)@, all@)),
        ),
    decreases old(tokens)@.len(), 1int,
{
    let ghost start = position_of(tokens@, all@);
    let mut body: Vec<Expression> = Vec::new();
    let mut anonymous: Vec<AnonymousFunction> = Vec::new();
    assert(body.deep_view() =~= Seq::<ExpressionView>::empty());
    assert(anonymous.deep_view() =~= Seq::<AnonymousFunctionView>::empty());
    loop
        invariant
            is_rest_of(tokens@, all@),
            tokens@.len() <= old(tokens)@.len(),
            start == position_of(old(tokens)@, all@),
            parsed_body(all@, start, *location, b as int, seq![], seq![]) is Some,
            parsed_body(all@, start, *location, b as int, seq![], seq![]) == parsed_body(
                all@,
                position_of(tokens@, all@),
                *location,
                b as int,
                body.deep_view(),
                anonymous.deep_view(),
            ),
        ensures
            is_rest_of(tokens@, all@),
            tokens@.len() == 0 || tokens@[0] is KeywordEnd || tokens@[0] is BranchStart,
            parsed_body(all@, start, *location, b as int, seq![], seq![]) == parsed_body(
                all@,
                position_of(tokens@, all@),
                *location,
                b as int,
                body.deep_view(),
                anonymous.deep_view(),
            ),
        decreases tokens@.len(),
    {
        let ghost pos = position_of(tokens@, all@);
        let ghost rest = tokens@;
        let is_function = match tokens.peek() {
            None => {
                break;
            },
            Some(Token::BranchStart) => {
                break;
            },
            Some(Token::KeywordEnd) => {
                break;
            },
            Some(Token::KeywordFn) => true,
            Some(_) => false,
        };
        proof {
            lemma_rest_step(rest, all@);
        }
        if is_function {
            let literal = FragmentLocation {
                parent: Box::new(crate::location::BranchLocation {
                    parent: Box::new(location.copied()),
                    index: crate::location::BranchIndex(b as u32),
                }),
                index: crate::location::FragmentIndexInBranchBody(body.len() as u32),
            };
            assert(literal == location_in(*location, b as int, body.deep_view().len() as int));
            let function_location = FunctionLocation::AnonymousFunction { location: literal.copied() };
            proof {
                lemma_function_advances(all@, pos, function_location);
            }
            match parse_function(tokens, all, &function_location) {
                Some((function, mut inner)) => {
                    let ghost before_body = body.deep_view();
                    let ghost before_anonymous = anonymous.deep_view();
                    let ghost inner_view = inner.deep_view();
                    let ghost function_view = function.deep_view();
                    body.push(Expression::UnresolvedLocalFunction);
                    anonymous.push(AnonymousFunction { location: literal, function });
                    anonymous.append(&mut inner);
                    assert(body.deep_view() =~= before_body.push(ExpressionView::UnresolvedLocalFunction));
                    assert(anonymous.deep_view() =~= before_anonymous.push(
                        AnonymousFunctionView { location: literal, function: function_view },
                    ) + inner_view);
                },
                None => {},
            }
        } else {
            let ghost before_body = body.deep_view();
            match tokens.take() {
                Some(Token::Comment { text }) => {
                    body.push(Expression::Comment { text });
                },
                Some(Token::Identifier { name }) => {
                    body.push(Expression::UnresolvedIdentifier {
                        name,
                        is_known_to_be_in_tail_position: false,
                        is_known_to_be_call_to_user_defined_function: false,
                    });
                },
                Some(Token::IntegerLiteral { value }) => {
                    body.push(Expression::Value(Value(value)));
                },
                _ => {
                    assert(false);
                },
            }
            assert(body.deep_view() =~= before_body.push(body.deep_view().last()));
        }
    }
    (body, anonymous)
}


fn parse_named_function(tokens: &mut Tokens, all: Ghost<Seq<TokenView>>, index: usize) -> (r: Option<
    (NamedFunction, Vec<AnonymousFunction>),
>)
    requires
        is_rest_of(old(tokens)@, all@),
        !(parsed_named_function(all@, position_of(old(tokens)@, all@), index as int) is Unexpected),
    ensures
        is_rest_of(final(tokens)@, all@),
        match parsed_named_function(all@, position_of(old(tokens)@, all@), index as int) {
            Parse::Parsed { value, end } => r matches Some((f, a)) && f.deep_view() == value.0
                && a.deep_view() == value.1 && position_of(final(tokens)@, all@) == end,
            Parse::Exhausted => r is None,
            Parse::Unexpected => false,
        },
{
    let ghost start = position_of(tokens@, all@);
    let mut found: Option<String> = None;
    loop
        invariant_except_break
            parsed_named_function(all@, start, index as int) == parsed_named_function(
                all@,
                position_of(tokens@, all@),
                index as int,
            ),
        invariant
            is_rest_of(tokens@, all@),
            !(parsed_named_function(all@, start, index as int) is Unexpected),
            start == position_of(old(tokens)@, all@),
        ensures
            is_rest_of(tokens@, all@),
            position_of(tokens@, all@) >= 1,
            found matches Some(name) && all@[position_of(tokens@, all@) - 1] == (TokenView::FunctionName { name: name@ }),
            parsed_named_function(all@, start, index as int) == parsed_named_function(
                all@,
                position_of(tokens@, all@) - 1,
                index as int,
            ),
        decreases tokens@.len(),
    {
        let ghost rest = tokens@;
        let is_comment = match tokens.peek() {
            Some(Token::Comment { .. }) => true,
            _ => false,
        };
        let token = match tokens.take() {
            Some(token) => token,
            None => {
                return None;
            },
        };
        proof {
            lemma_rest_step(rest, all@);
        }
        if is_comment {
            continue;
        }
        match token {
            Token::FunctionName { name } => {
                found = Some(name);
                break;
            },
            _ => {
                assert(false);
                return None;
            },
        }
    }
    let name = match found {
        Some(name) => name,
        None => {
            return None;
        },
    };
    let location = FunctionLocation::NamedFunction { index: FunctionIndexInRootContext(index as u32) };
    match parse_function(tokens, all, &location) {
        Some((inner, anonymous)) => Some((NamedFunction { name, inner }, anonymous)),
        None => None,
    }
}

/// # Parse tokens into functions
///
/// Named functions are numbered in the order in which they occur. Function
/// literals are tracked as anonymous functions, at their location. Parsing
/// stops where the tokens run out; a function that they run out in is dropped.
///
/// The tokens must not hold a token where the grammar does not allow it.
pub fn parse(tokens: Vec<Token>) -> (r: Functions)
    requires
        spec_parse(tokens.deep_view()) is Some,
    ensures
        spec_parse(tokens.deep_view()) == Some(r.deep_view()),
{
    let ghost all = tokens.deep_view();
    let mut tokens = Tokens::new(tokens);
    let mut functions = Functions { named: Vec::new(), anonymous: Vec::new() };
    assert(functions.named.deep_view() =~= Seq::<NamedFunctionView>::empty());
    assert(functions.anonymous.deep_view() =~= Seq::<AnonymousFunctionView>::empty());
    assert(functions.deep_view() == (FunctionsView { named: seq![], anonymous: seq![] }));
    assert(all.skip(0) =~= all);
    loop
        invariant_except_break
            spec_parse(all) == parsed_named_functions(all, position_of(tokens@, all), functions.deep_view()),
        invariant
            is_rest_of(tokens@, all),
            spec_parse(all) is Some,
        ensures
            spec_parse(all) == Some(functions.deep_view()),
        decreases tokens@.len(),
    {
        let ghost pos = position_of(tokens@, all);
        let ghost before = functions.deep_view();
        proof {
            lemma_named_function_advances(all, pos, before.named.len() as int);
        }
        match parse_named_function(&mut tokens, Ghost(all), functions.named.len()) {
            Some((function, mut anonymous)) => {
                let ghost function_view = function.deep_view();
                let ghost anonymous_view = anonymous.deep_view();
                functions.named.push(function);
                functions.anonymous.append(&mut anonymous);
                assert(functions.deep_view().named =~= before.named.push(function_view));
                assert(functions.deep_view().anonymous =~= before.anonymous + anonymous_view);
            },
            None => {
                break;
            },
        }
    }
    functions
}

} // verus!
