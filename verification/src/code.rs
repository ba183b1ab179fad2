//! # The representation of code that the compiler passes work on

use vstd::prelude::*;

use crate::intrinsics::IntrinsicFunction;
use crate::location::{
    BranchIndex, BranchLocation, FragmentIndexInBranchBody, FragmentLocation,
    FunctionIndexInCluster, FunctionIndexInRootContext, FunctionLocation,
};

verus! {

/// # A value, as the runtime represents it
#[derive(Clone, Copy, Debug, PartialEq, Eq, Structural)]
pub struct Value(pub i32);

/// # The content-addressed identity of a function
#[derive(Clone, Copy, Debug, PartialEq, Eq)]
pub struct Hash {
    pub hash: [u8; 32],
}

/// # A pattern that a branch parameter matches arguments against
#[derive(Debug, PartialEq, Eq)]
pub enum Pattern {
    Identifier { name: String },
    Literal { value: Value },
}

/// # An expression in the body of a branch
#[derive(Debug, PartialEq, Eq)]
pub enum Expression {
    /// # A comment, which does not influence the execution of the code
    Comment { text: String },
    /// # An identifier that has not been resolved yet
    UnresolvedIdentifier {
        name: String,
        is_known_to_be_in_tail_position: bool,
        is_known_to_be_call_to_user_defined_function: bool,
    },
    /// # A function literal, whose function is tracked by its location
    UnresolvedLocalFunction,
    /// # A function literal, resolved to the hash of its function
    LocalFunction { hash: Hash },
    /// # A function literal whose function is in the same cluster
    LocalFunctionRecursive { index: FunctionIndexInCluster },
    /// # A call to a function defined by the host
    CallToHostFunction { number: u8 },
    /// # A call to a compiler intrinsic
    CallToIntrinsicFunction { intrinsic: IntrinsicFunction },
    /// # A call to a user-defined function in another cluster
    CallToUserDefinedFunction { hash: Hash, is_tail_call: bool },
    /// # A call to a user-defined function in the same cluster
    CallToUserDefinedFunctionRecursive { index: FunctionIndexInCluster, is_tail_call: bool },
    /// # A literal value
    Value(Value),
}

/// # A branch of a function
#[derive(Debug, PartialEq, Eq)]
pub struct Branch {
    /// # The patterns that arguments are matched against
    pub parameters: Vec<Pattern>,
    /// # The body of the branch; an expression's index is its position
    pub body: Vec<Expression>,
}

/// # A function, made up of branches
#[derive(Debug, PartialEq, Eq)]
pub struct Function {
    /// # The branches; a branch's index is its position
    pub branches: Vec<Branch>,
}

/// # A function in the root context, which has a name
#[derive(Debug, PartialEq, Eq)]
pub struct NamedFunction {
    pub name: String,
    pub inner: Function,
}

/// # An anonymous function, tracked by the location of its literal
#[derive(Debug, PartialEq, Eq)]
pub struct AnonymousFunction {
    pub location: FragmentLocation,
    pub function: Function,
}

/// # All functions of a program
///
/// The index of a named function in the root context is its position in
/// `named`.
#[derive(Debug, PartialEq, Eq)]
pub struct Functions {
    pub named: Vec<NamedFunction>,
    pub anonymous: Vec<AnonymousFunction>,
}

/// # The mathematical model of a [`Pattern`]
pub ghost enum PatternView {
    Identifier { name: Seq<char> },
    Literal { value: Value },
}

/// # The mathematical model of an [`Expression`]
pub ghost enum ExpressionView {
    Comment { text: Seq<char> },
    UnresolvedIdentifier {
        name: Seq<char>,
        is_known_to_be_in_tail_position: bool,
        is_known_to_be_call_to_user_defined_function: bool,
    },
    UnresolvedLocalFunction,
    LocalFunction { hash: Hash },
    LocalFunctionRecursive { index: FunctionIndexInCluster },
    CallToHostFunction { number: u8 },
    CallToIntrinsicFunction { intrinsic: IntrinsicFunction },
    CallToUserDefinedFunction { hash: Hash, is_tail_call: bool },
    CallToUserDefinedFunctionRecursive { index: FunctionIndexInCluster, is_tail_call: bool },
    Value(Value),
}

/// # The mathematical model of a [`Branch`]
pub ghost struct BranchView {
    pub parameters: Seq<PatternView>,
    pub body: Seq<ExpressionView>,
}

/// # The mathematical model of a [`Function`]
pub ghost struct FunctionView {
    pub branches: Seq<BranchView>,
}

/// # The mathematical model of a [`NamedFunction`]
pub ghost struct NamedFunctionView {
    pub name: Seq<char>,
    pub inner: FunctionView,
}

/// # The mathematical model of an [`AnonymousFunction`]
pub ghost struct AnonymousFunctionView {
    pub location: FragmentLocation,
    pub function: FunctionView,
}

/// # The mathematical model of [`Functions`]
pub ghost struct FunctionsView {
    pub named: Seq<NamedFunctionView>,
    pub anonymous: Seq<AnonymousFunctionView>,
}

impl DeepView for Pattern {
    type V = PatternView;

    open spec fn deep_view(&self) -> PatternView {
        match self {
            Pattern::Identifier { name } => PatternView::Identifier { name: name@ },
            Pattern::Literal { value } => PatternView::Literal { value: *value },
        }
    }
}

impl DeepView for Expression {
    type V = ExpressionView;

    open spec fn deep_view(&self) -> ExpressionView {
        match self {
            Expression::Comment { text } => ExpressionView::Comment { text: text@ },
            Expression::UnresolvedIdentifier {
                name,
                is_known_to_be_in_tail_position,
                is_known_to_be_call_to_user_defined_function,
            } => ExpressionView::UnresolvedIdentifier {
                name: name@,
                is_known_to_be_in_tail_position: *is_known_to_be_in_tail_position,
                is_known_to_be_call_to_user_defined_function:
                    *is_known_to_be_call_to_user_defined_function,
            },
            Expression::UnresolvedLocalFunction => ExpressionView::UnresolvedLocalFunction,
            Expression::LocalFunction { hash } => ExpressionView::LocalFunction { hash: *hash },
            Expression::LocalFunctionRecursive { index } => ExpressionView::LocalFunctionRecursive {
                index: *index,
            },
            Expression::CallToHostFunction { number } => ExpressionView::CallToHostFunction {
                number: *number,
            },
            Expression::CallToIntrinsicFunction { intrinsic } =>
                ExpressionView::CallToIntrinsicFunction { intrinsic: *intrinsic },
            Expression::CallToUserDefinedFunction { hash, is_tail_call } =>
                ExpressionView::CallToUserDefinedFunction {
                    hash: *hash,
                    is_tail_call: *is_tail_call,
                },
            Expression::CallToUserDefinedFunctionRecursive { index, is_tail_call } =>
                ExpressionView::CallToUserDefinedFunctionRecursive {
                    index: *index,
                    is_tail_call: *is_tail_call,
                },
            Expression::Value(value) => ExpressionView::Value(*value),
        }
    }
}

impl DeepView for Branch {
    type V = BranchView;

    open spec fn deep_view(&self) -> BranchView {
        BranchView { parameters: self.parameters.deep_view(), body: self.body.deep_view() }
    }
}

impl DeepView for Function {
    type V = FunctionView;

    open spec fn deep_view(&self) -> FunctionView {
        FunctionView { branches: self.branches.deep_view() }
    }
}

impl DeepView for NamedFunction {
    type V = NamedFunctionView;

    open spec fn deep_view(&self) -> NamedFunctionView {
        NamedFunctionView { name: self.name@, inner: self.inner.deep_view() }
    }
}

impl DeepView for AnonymousFunction {
    type V = AnonymousFunctionView;

    open spec fn deep_view(&self) -> AnonymousFunctionView {
        AnonymousFunctionView { location: self.location, function: self.function.deep_view() }
    }
}

impl DeepView for Functions {
    type V = FunctionsView;

    open spec fn deep_view(&self) -> FunctionsView {
        FunctionsView { named: self.named.deep_view(), anonymous: self.anonymous.deep_view() }
    }
}

/// The location of the named function at `index`
pub open spec fn named_location(index: int) -> FunctionLocation {
    FunctionLocation::NamedFunction { index: FunctionIndexInRootContext(index as u32) }
}

/// The position of the first anonymous function at `location`
pub open spec fn anonymous_position(
    anonymous: Seq<AnonymousFunctionView>,
    location: FragmentLocation,
) -> Option<int>
    decreases anonymous.len(),
{
    if anonymous.len() == 0 {
        None
    } else if anonymous[0].location == location {
        Some(0)
    } else {
        match anonymous_position(anonymous.drop_first(), location) {
            Some(i) => Some(i + 1),
            None => None,
        }
    }
}

/// The position of the first of `named` with the given name
pub open spec fn named_position_in(named: Seq<NamedFunctionView>, name: Seq<char>) -> Option<int>
    decreases named.len(),
{
    if named.len() == 0 {
        None
    } else if named[0].name == name {
        Some(0)
    } else {
        match named_position_in(named.drop_first(), name) {
            Some(i) => Some(i + 1),
            None => None,
        }
    }
}

proof fn lemma_named_position_in(named: Seq<NamedFunctionView>, name: Seq<char>, k: int)
    requires
        0 <= k <= named.len(),
        forall|j: int| 0 <= j < k ==> #[trigger] named[j].name != name,
    ensures
        k < named.len() && named[k].name == name ==> named_position_in(named, name) == Some(k),
        k == named.len() ==> named_position_in(named, name) is None,
    decreases k,
{
    if k > 0 {
        let rest = named.drop_first();
        assert forall|j: int| 0 <= j < k - 1 implies #[trigger] rest[j].name != name by {
            assert(rest[j] == named[j + 1]);
        }
        lemma_named_position_in(rest, name, k - 1);
    }
}

/// A position found by name holds a function of that name.
pub proof fn named_position_found(named: Seq<NamedFunctionView>, name: Seq<char>)
    ensures
        named_position_in(named, name) matches Some(i) ==> 0 <= i < named.len() && named[i].name
            == name,
        named_position_in(named, name) is None ==> forall|i: int|
            0 <= i < named.len() ==> #[trigger] named[i].name != name,
    decreases named.len(),
{
    if named.len() > 0 && named[0].name != name {
        named_position_found(named.drop_first(), name);
        if named_position_in(named, name) is None {
            assert forall|i: int| 0 <= i < named.len() implies #[trigger] named[i].name != name by {
                if i > 0 {
                    assert(named[i] == named.drop_first()[i - 1]);
                }
            }
        }
    }
}

proof fn lemma_anonymous_position(
    anonymous: Seq<AnonymousFunctionView>,
    location: FragmentLocation,
    k: int,
)
    requires
        0 <= k <= anonymous.len(),
        forall|j: int| 0 <= j < k ==> #[trigger] anonymous[j].location != location,
    ensures
        k < anonymous.len() && anonymous[k].location == location ==> anonymous_position(
            anonymous,
            location,
        ) == Some(k),
        k == anonymous.len() ==> anonymous_position(anonymous, location) is None,
    decreases k,
{
    if k > 0 {
        let rest = anonymous.drop_first();
        assert forall|j: int| 0 <= j < k - 1 implies #[trigger] rest[j].location != location by {
            assert(rest[j] == anonymous[j + 1]);
        }
        lemma_anonymous_position(rest, location, k - 1);
    }
}

/// A position found by location holds a function at that location.
pub proof fn anonymous_position_found(anonymous: Seq<AnonymousFunctionView>, location: FragmentLocation)
    ensures
        anonymous_position(anonymous, location) matches Some(i) ==> 0 <= i < anonymous.len()
            && anonymous[i].location == location,
        anonymous_position(anonymous, location) is None ==> forall|i: int|
            0 <= i < anonymous.len() ==> #[trigger] anonymous[i].location != location,
    decreases anonymous.len(),
{
    if anonymous.len() > 0 && anonymous[0].location != location {
        anonymous_position_found(anonymous.drop_first(), location);
        if anonymous_position(anonymous, location) is None {
            assert forall|i: int| 0 <= i < anonymous.len() implies #[trigger] anonymous[i].location
                != location by {
                if i > 0 {
                    assert(anonymous[i] == anonymous.drop_first()[i - 1]);
                }
            }
        }
    }
}

/// Positions found by location depend on the locations alone.
pub proof fn anonymous_position_same_shape(a: FunctionsView, b: FunctionsView, location: FragmentLocation)
    requires
        a.same_shape(b),
    ensures
        anonymous_position(a.anonymous, location) == anonymous_position(b.anonymous, location),
    decreases a.anonymous.len(),
{
    if a.anonymous.len() > 0 {
        let a2 = FunctionsView { named: a.named, anonymous: a.anonymous.drop_first() };
        let b2 = FunctionsView { named: b.named, anonymous: b.anonymous.drop_first() };
        assert forall|i: int| 0 <= i < a2.anonymous.len() implies #[trigger] a2.anonymous[i].location
            == b2.anonymous[i].location by {
            assert(a.anonymous[i + 1].location == b.anonymous[i + 1].location);
        }
        anonymous_position_same_shape(a2, b2, location);
        assert(a.anonymous[0].location == b.anonymous[0].location);
    }
}

/// Functions of the same shape have functions at the same locations.
pub proof fn function_at_same_shape(a: FunctionsView, b: FunctionsView, location: FunctionLocation)
    requires
        a.same_shape(b),
    ensures
        a.function_at(location) is Some <==> b.function_at(location) is Some,
{
    if let FunctionLocation::AnonymousFunction { location } = location {
        anonymous_position_same_shape(a, b, location);
    }
}

/// Replacing a function keeps the shape of the functions.
pub proof fn update_function_same_shape(fs: FunctionsView, location: FunctionLocation, f: FunctionView)
    ensures
        fs.update_function(location, f).same_shape(fs),
{
    match location {
        FunctionLocation::AnonymousFunction { location } => {
            anonymous_position_found(fs.anonymous, location);
        },
        _ => {},
    }
}

impl Pattern {
    /// # A copy of this pattern
    pub fn copied(&self) -> (r: Pattern)
        ensures
            r.deep_view() == self.deep_view(),
    {
        match self {
            Pattern::Identifier { name } => Pattern::Identifier { name: name.clone() },
            Pattern::Literal { value } => Pattern::Literal { value: *value },
        }
    }
}

impl Expression {
    /// # A copy of this expression
    pub fn copied(&self) -> (r: Expression)
        ensures
            r.deep_view() == self.deep_view(),
    {
        match self {
            Expression::Comment { text } => Expression::Comment { text: text.clone() },
            Expression::UnresolvedIdentifier {
                name,
                is_known_to_be_in_tail_position,
                is_known_to_be_call_to_user_defined_function,
            } => Expression::UnresolvedIdentifier {
                name: name.clone(),
                is_known_to_be_in_tail_position: *is_known_to_be_in_tail_position,
                is_known_to_be_call_to_user_defined_function: *is_known_to_be_call_to_user_defined_function,
            },
            Expression::UnresolvedLocalFunction => Expression::UnresolvedLocalFunction,
            Expression::LocalFunction { hash } => Expression::LocalFunction { hash: *hash },
            Expression::LocalFunctionRecursive { index } => Expression::LocalFunctionRecursive { index: *index },
            Expression::CallToHostFunction { number } => Expression::CallToHostFunction { number: *number },
            Expression::CallToIntrinsicFunction { intrinsic } => Expression::CallToIntrinsicFunction {
                intrinsic: *intrinsic,
            },
            Expression::CallToUserDefinedFunction { hash, is_tail_call } => Expression::CallToUserDefinedFunction {
                hash: *hash,
                is_tail_call: *is_tail_call,
            },
            Expression::CallToUserDefinedFunctionRecursive { index, is_tail_call } =>
                Expression::CallToUserDefinedFunctionRecursive { index: *index, is_tail_call: *is_tail_call },
            Expression::Value(value) => Expression::Value(*value),
        }
    }
}

impl Branch {
    /// # A copy of this branch
    pub fn copied(&self) -> (r: Branch)
        ensures
            r.deep_view() == self.deep_view(),
    {
        let mut parameters: Vec<Pattern> = Vec::new();
        let n = self.parameters.len();
        let mut i: usize = 0;
        while i < n
            invariant
                n == self.parameters@.len(),
                i <= n,
                parameters.deep_view() == self.parameters.deep_view().take(i as int),
            decreases n - i,
        {
            let ghost before = parameters.deep_view();
            parameters.push(self.parameters[i].copied());
            assert(parameters.deep_view() =~= before.push(self.parameters@[i as int].deep_view()));
            assert(self.parameters.deep_view().take(i + 1) =~= self.parameters.deep_view().take(i as int).push(
                self.parameters@[i as int].deep_view(),
            ));
            i = i + 1;
        }
        let mut body: Vec<Expression> = Vec::new();
        let m = self.body.len();
        let mut k: usize = 0;
        while k < m
            invariant
                m == self.body@.len(),
                k <= m,
                body.deep_view() == self.body.deep_view().take(k as int),
            decreases m - k,
        {
            let ghost before = body.deep_view();
            body.push(self.body[k].copied());
            assert(body.deep_view() =~= before.push(self.body@[k as int].deep_view()));
            assert(self.body.deep_view().take(k + 1) =~= self.body.deep_view().take(k as int).push(
                self.body@[k as int].deep_view(),
            ));
            k = k + 1;
        }
        assert(self.parameters.deep_view().take(n as int) =~= self.parameters.deep_view());
        assert(self.body.deep_view().take(m as int) =~= self.body.deep_view());
        Branch { parameters, body }
    }
}

impl Function {
    /// # A copy of this function
    pub fn copied(&self) -> (r: Function)
        ensures
            r.deep_view() == self.deep_view(),
    {
        let mut branches: Vec<Branch> = Vec::new();
        let n = self.branches.len();
        let mut i: usize = 0;
        while i < n
            invariant
                n == self.branches@.len(),
                i <= n,
                branches.deep_view() == self.branches.deep_view().take(i as int),
            decreases n - i,
        {
            let ghost before = branches.deep_view();
            branches.push(self.branches[i].copied());
            assert(branches.deep_view() =~= before.push(self.branches@[i as int].deep_view()));
            assert(self.branches.deep_view().take(i + 1) =~= self.branches.deep_view().take(i as int).push(
                self.branches@[i as int].deep_view(),
            ));
            i = i + 1;
        }
        assert(self.branches.deep_view().take(n as int) =~= self.branches.deep_view());
        Function { branches }
    }
}

/// # Where a function is stored
pub enum StoredAt {
    Named(usize),
    Anonymous(usize),
}

impl Functions {
    /// # Where the function at `location` is stored, if there is one
    pub fn find(&self, location: &FunctionLocation) -> (r: Option<StoredAt>)
        ensures
            match location {
                FunctionLocation::NamedFunction { index } => match r {
                    Some(StoredAt::Named(i)) => i == index.0 && i < self.named.len(),
                    None => index.0 >= self.named.len(),
                    _ => false,
                },
                FunctionLocation::AnonymousFunction { location } => match r {
                    Some(StoredAt::Anonymous(i)) => anonymous_position(
                        self.deep_view().anonymous,
                        *location,
                    ) == Some(i as int),
                    None => anonymous_position(self.deep_view().anonymous, *location) is None,
                    _ => false,
                },
            },
    {
        match location {
            FunctionLocation::NamedFunction { index } => {
                if (index.0 as usize) < self.named.len() {
                    Some(StoredAt::Named(index.0 as usize))
                } else {
                    None
                }
            },
            FunctionLocation::AnonymousFunction { location } => {
                match self.find_anonymous_position(location) {
                    Some(i) => Some(StoredAt::Anonymous(i)),
                    None => None,
                }
            },
        }
    }

    /// # The function at `location`, if there is one
    pub fn by_location(&self, location: &FunctionLocation) -> (r: Option<&Function>)
        ensures
            match self.deep_view().function_at(*location) {
                Some(f) => r matches Some(g) && g.deep_view() == f,
                None => r is None,
            },
    {
        match self.find(location) {
            Some(StoredAt::Named(i)) => Some(&self.named[i].inner),
            Some(StoredAt::Anonymous(i)) => {
                proof {
                    anonymous_position_found(self.deep_view().anonymous, location->location);
                }
                Some(&self.anonymous[i].function)
            },
            None => None,
        }
    }

    /// # Find the first named function with the given name
    pub fn find_named_position(&self, name: &str) -> (r: Option<usize>)
        ensures
            r matches Some(i) ==> self.deep_view().named_position(name@) == Some(i as int),
            r is None ==> self.deep_view().named_position(name@) is None,
            r matches Some(i) ==> i < self.named.len(),
    {
        let n = self.named.len();
        let mut i: usize = 0;
        while i < n
            invariant
                n == self.named.len(),
                i <= n,
                forall|j: int| 0 <= j < i ==> #[trigger] self.named.deep_view()[j].name != name@,
            decreases n - i,
        {
            if crate::intrinsics::str_eq(self.named[i].name.as_str(), name) {
                proof {
                    lemma_named_position_in(self.named.deep_view(), name@, i as int);
                }
                return Some(i);
            }
            i = i + 1;
        }
        proof {
            lemma_named_position_in(self.named.deep_view(), name@, n as int);
        }
        None
    }

    /// # Find the position of the anonymous function at `location`
    pub fn find_anonymous_position(&self, location: &FragmentLocation) -> (r: Option<usize>)
        ensures
            r matches Some(i) ==> anonymous_position(self.deep_view().anonymous, *location) == Some(
                i as int,
            ),
            r is None ==> anonymous_position(self.deep_view().anonymous, *location) is None,
    {
        let n = self.anonymous.len();
        let mut i: usize = 0;
        while i < n
            invariant
                n == self.anonymous.len(),
                i <= n,
                forall|j: int| 0 <= j < i ==> #[trigger] self.anonymous.deep_view()[j].location
                    != *location,
            decreases n - i,
        {
            if self.anonymous[i].location.same_as(location) {
                proof {
                    lemma_anonymous_position(self.anonymous.deep_view(), *location, i as int);
                }
                return Some(i);
            }
            i = i + 1;
        }
        proof {
            lemma_anonymous_position(self.anonymous.deep_view(), *location, n as int);
        }
        None
    }

    /// # The number of all functions, named and anonymous
    pub fn count(&self) -> (r: usize)
        requires
            self.named.len() + self.anonymous.len() <= usize::MAX,
        ensures
            r == self.deep_view().count(),
    {
        self.named.len() + self.anonymous.len()
    }

    /// # The location of the function at `position` in the list of all functions
    pub fn location_of(&self, position: usize) -> (r: FunctionLocation)
        requires
            position < self.deep_view().count(),
            self.named.len() <= u32::MAX,
        ensures
            r == self.deep_view().location_of(position as int),
    {
        if position < self.named.len() {
            FunctionLocation::NamedFunction { index: FunctionIndexInRootContext(position as u32) }
        } else {
            FunctionLocation::AnonymousFunction {
                location: self.anonymous[position - self.named.len()].location.copied(),
            }
        }
    }

    /// # The function at `position` in the list of all functions
    pub fn function_at_position(&self, position: usize) -> (r: &Function)
        requires
            position < self.deep_view().count(),
        ensures
            r.deep_view() == self.deep_view().function_at_position(position as int),
    {
        if position < self.named.len() {
            &self.named[position].inner
        } else {
            &self.anonymous[position - self.named.len()].function
        }
    }
}

impl FunctionsView {
    /// The function at `location`, if there is one
    pub open spec fn function_at(self, location: FunctionLocation) -> Option<FunctionView> {
        match location {
            FunctionLocation::NamedFunction { index } => if index.0 < self.named.len() {
                Some(self.named[index.0 as int].inner)
            } else {
                None
            },
            FunctionLocation::AnonymousFunction { location } => match anonymous_position(
                self.anonymous,
                location,
            ) {
                Some(i) => Some(self.anonymous[i].function),
                None => None,
            },
        }
    }

    /// These functions, with the function at `location` replaced by `function`
    ///
    /// Nothing changes, if there is no function at `location`.
    pub open spec fn update_function(self, location: FunctionLocation, function: FunctionView) -> FunctionsView {
        match location {
            FunctionLocation::NamedFunction { index } => if index.0 < self.named.len() {
                FunctionsView {
                    named: self.named.update(
                        index.0 as int,
                        NamedFunctionView { name: self.named[index.0 as int].name, inner: function },
                    ),
                    anonymous: self.anonymous,
                }
            } else {
                self
            },
            FunctionLocation::AnonymousFunction { location } => match anonymous_position(
                self.anonymous,
                location,
            ) {
                Some(i) => FunctionsView {
                    named: self.named,
                    anonymous: self.anonymous.update(
                        i,
                        AnonymousFunctionView { location: self.anonymous[i].location, function },
                    ),
                },
                None => self,
            },
        }
    }

    /// Whether these functions have the same names, in the same order, and the
    /// same anonymous function locations, in the same order, as `other`
    pub open spec fn same_shape(self, other: FunctionsView) -> bool {
        &&& self.named.len() == other.named.len()
        &&& self.anonymous.len() == other.anonymous.len()
        &&& forall|i: int| 0 <= i < self.named.len() ==> #[trigger] self.named[i].name == other.named[i].name
        &&& forall|i: int|
            0 <= i < self.anonymous.len() ==> #[trigger] self.anonymous[i].location
                == other.anonymous[i].location
    }

    /// The names of the named functions
    pub open spec fn names(self) -> Set<Seq<char>> {
        Set::new(|name: Seq<char>| exists|i: int| 0 <= i < self.named.len() && #[trigger] self.named[i].name == name)
    }

    /// The location of the function at `position` in the list of all
    /// functions: the named functions in order, then the anonymous ones
    pub open spec fn location_of(self, position: int) -> FunctionLocation {
        if position < self.named.len() {
            named_location(position)
        } else {
            FunctionLocation::AnonymousFunction {
                location: self.anonymous[position - self.named.len()].location,
            }
        }
    }

    /// The function at `position` in the list of all functions
    pub open spec fn function_at_position(self, position: int) -> FunctionView {
        if position < self.named.len() {
            self.named[position].inner
        } else {
            self.anonymous[position - self.named.len()].function
        }
    }

    /// The position of the first named function with the given name
    pub open spec fn named_position(self, name: Seq<char>) -> Option<int> {
        named_position_in(self.named, name)
    }

    /// The number of all functions, named and anonymous
    pub open spec fn count(self) -> nat {
        self.named.len() + self.anonymous.len()
    }

    /// Whether the functions can be addressed: each named function's index fits
    /// into its location, and no two anonymous functions share a location
    pub open spec fn is_addressable(self) -> bool {
        &&& self.named.len() <= u32::MAX
        &&& forall|i: int, j: int|
            0 <= i < j < self.anonymous.len() ==> #[trigger] self.anonymous[i].location
                != #[trigger] self.anonymous[j].location
    }
}

} // verus!
