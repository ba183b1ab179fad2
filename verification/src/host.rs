//! # The host into which a Caterpillar application is embedded

use vstd::prelude::*;

use crate::types::{ConcreteSignature, TypeView};

verus! {

/// # A function that is provided by the host
#[derive(Debug)]
pub struct HostFunction {
    /// # The name that identifies the function in input code
    pub name: String,
    /// # The number that identifies the function in the host effect
    pub number: u8,
    /// # The type signature of the function
    pub signature: ConcreteSignature,
}

/// # The mathematical model of a [`HostFunction`]
pub ghost struct HostFunctionView {
    pub name: Seq<char>,
    pub number: u8,
    pub inputs: Seq<TypeView>,
    pub outputs: Seq<TypeView>,
}

impl DeepView for HostFunction {
    type V = HostFunctionView;

    open spec fn deep_view(&self) -> HostFunctionView {
        HostFunctionView {
            name: self.name@,
            number: self.number,
            inputs: self.signature.inputs.deep_view(),
            outputs: self.signature.outputs.deep_view(),
        }
    }
}

/// Whether `f` is the function that a query asks for: the one with the given
/// number if there is one, otherwise the one with the given name
pub open spec fn is_queried(f: HostFunctionView, number: Option<u8>, name: Seq<char>) -> bool {
    match number {
        Some(n) => f.number == n,
        None => f.name == name,
    }
}

/// The position of the first of `functions` that a query asks for
pub open spec fn first_queried(
    functions: Seq<HostFunctionView>,
    number: Option<u8>,
    name: Seq<char>,
) -> Option<int>
    decreases functions.len(),
{
    if functions.len() == 0 {
        None
    } else if is_queried(functions[0], number, name) {
        Some(0)
    } else {
        match first_queried(functions.drop_first(), number, name) {
            Some(i) => Some(i + 1),
            None => None,
        }
    }
}

/// The first of `functions` that a query asks for
pub open spec fn queried_function(
    functions: Seq<HostFunctionView>,
    number: Option<u8>,
    name: Seq<char>,
) -> Option<HostFunctionView> {
    match first_queried(functions, number, name) {
        Some(i) => Some(functions[i]),
        None => None,
    }
}

/// The first of `functions` with the given number
pub open spec fn host_function_by_number(functions: Seq<HostFunctionView>, number: u8) -> Option<
    HostFunctionView,
> {
    queried_function(functions, Some(number), seq![])
}

/// The first of `functions` with the given name
pub open spec fn host_function_by_name(functions: Seq<HostFunctionView>, name: Seq<char>) -> Option<
    HostFunctionView,
> {
    queried_function(functions, None, name)
}

pub(crate) proof fn lemma_first_queried(
    functions: Seq<HostFunctionView>,
    number: Option<u8>,
    name: Seq<char>,
    k: int,
)
    requires
        0 <= k <= functions.len(),
        forall|j: int| 0 <= j < k ==> !is_queried(#[trigger] functions[j], number, name),
    ensures
        k < functions.len() && is_queried(functions[k], number, name) ==> first_queried(
            functions,
            number,
            name,
        ) == Some(k),
        k == functions.len() ==> first_queried(functions, number, name) is None,
    decreases k,
{
    if k > 0 {
        let rest = functions.drop_first();
        assert forall|j: int| 0 <= j < k - 1 implies !is_queried(#[trigger] rest[j], number, name) by {
            assert(rest[j] == functions[j + 1]);
        }
        lemma_first_queried(rest, number, name, k - 1);
        assert(!is_queried(functions[0], number, name));
    }
}

/// What a query finds is what it asks for.
pub proof fn queried_function_is_queried(
    functions: Seq<HostFunctionView>,
    number: Option<u8>,
    name: Seq<char>,
)
    ensures
        first_queried(functions, number, name) matches Some(i) ==> 0 <= i < functions.len()
            && is_queried(functions[i], number, name),
        queried_function(functions, number, name) matches Some(f) ==> is_queried(f, number, name),
    decreases functions.len(),
{
    if functions.len() > 0 && !is_queried(functions[0], number, name) {
        queried_function_is_queried(functions.drop_first(), number, name);
    }
}

/// # Take the first of `functions` that a query asks for out of them
fn take_queried(candidates: Vec<HostFunction>, number: Option<u8>, name: &str) -> (r: Option<
    HostFunction,
>)
    ensures
        r.deep_view() == queried_function(candidates.deep_view(), number, name@),
{
    let mut functions = candidates;
    let ghost all = functions.deep_view();
    let n = functions.len();
    let mut i: usize = 0;
    while i < n
        invariant
            n == functions.len(),
            functions.deep_view() == all,
            candidates.deep_view() == all,
            i <= n,
            forall|j: int| 0 <= j < i ==> !is_queried(#[trigger] all[j], number, name@),
        decreases n - i,
    {
        let found = match number {
            Some(k) => functions[i].number == k,
            None => crate::intrinsics::str_eq(functions[i].name.as_str(), name),
        };
        assert(found == is_queried(all[i as int], number, name@));
        if found {
            proof {
                lemma_first_queried(all, number, name@, i as int);
            }
            let f = functions.swap_remove(i);
            assert(f.deep_view() == all[i as int]);
            assert(queried_function(all, number, name@) == Some(all[i as int]));
            let r = Some(f);
            assert(r.deep_view() == Some(f.deep_view()));
            return r;
        }
        i = i + 1;
    }
    proof {
        lemma_first_queried(all, number, name@, n as int);
    }
    None
}

/// # Find the first of `functions` with the given number
pub fn find_host_function_by_number(functions: Vec<HostFunction>, number: u8) -> (r: Option<
    HostFunction,
>)
    ensures
        r.deep_view() == host_function_by_number(functions.deep_view(), number),
{
    proof {
        reveal_strlit("");
    }
    assert(""@ =~= Seq::<char>::empty());
    take_queried(functions, Some(number), "")
}

/// # The first of `functions` with the given number, borrowed
pub fn host_function_with_number(functions: &Vec<HostFunction>, number: u8) -> (r: Option<&HostFunction>)
    ensures
        match host_function_by_number(functions.deep_view(), number) {
            Some(f) => r matches Some(g) && g.deep_view() == f,
            None => r is None,
        },
{
    let ghost all = functions.deep_view();
    let n = functions.len();
    let mut i: usize = 0;
    while i < n
        invariant
            n == functions.len(),
            all == functions.deep_view(),
            i <= n,
            forall|j: int| 0 <= j < i ==> !is_queried(#[trigger] all[j], Some(number), seq![]),
        decreases n - i,
    {
        if functions[i].number == number {
            proof {
                lemma_first_queried(all, Some(number), seq![], i as int);
            }
            return Some(&functions[i]);
        }
        i = i + 1;
    }
    proof {
        lemma_first_queried(all, Some(number), seq![], n as int);
    }
    None
}

/// # Find the first of `functions` with the given name
pub fn find_host_function_by_name(functions: Vec<HostFunction>, name: &str) -> (r: Option<
    HostFunction,
>)
    ensures
        r.deep_view() == host_function_by_name(functions.deep_view(), name@),
{
    take_queried(functions, None, name)
}

/// # A host into which a Caterpillar application is embedded
pub trait Host {
    /// The host's functions, as [`Host::functions`] returns them
    spec fn spec_functions(&self) -> Seq<HostFunctionView>;

    /// # All of the host's functions
    ///
    /// Implementations must guarantee that each function has a unique number
    /// (see [`HostFunction::number`]) and name (see [`HostFunction::name`]).
    fn functions(&self) -> (r: Vec<HostFunction>)
        ensures
            r.deep_view() == self.spec_functions(),
    ;

    /// # Access a host function by its number
    ///
    /// Returns `None`, if the provided number does not identify a host
    /// function; otherwise the first of the host's functions with that number.
    fn function_by_number(&self, number: u8) -> (r: Option<HostFunction>)
        ensures
            r.deep_view() == host_function_by_number(self.spec_functions(), number),
    {
        let functions = self.functions();
        find_host_function_by_number(functions, number)
    }

    /// # Access a host function by its name
    ///
    /// Returns `None`, if the provided name does not identify a host function;
    /// otherwise the first of the host's functions with that name.
    fn function_by_name(&self, name: &str) -> (r: Option<HostFunction>)
        ensures
            r.deep_view() == host_function_by_name(self.spec_functions(), name@),
    {
        let functions = self.functions();
        find_host_function_by_name(functions, name)
    }
}

impl HostFunction {
    /// # A copy of this host function
    pub fn copied(&self) -> (r: HostFunction)
        ensures
            r.deep_view() == self.deep_view(),
    {
        HostFunction { name: self.name.clone(), number: self.number, signature: self.signature.copied() }
    }
}

/// # A host that is given by the list of its functions
///
/// A [`Host`] states its functions to the verifier, so an implementation of
/// the trait must be verified; this one serves any host whose functions are
/// known as a list.
pub struct HostFunctionList {
    pub functions: Vec<HostFunction>,
}

impl Host for HostFunctionList {
    open spec fn spec_functions(&self) -> Seq<HostFunctionView> {
        self.functions.deep_view()
    }

    fn functions(&self) -> (r: Vec<HostFunction>) {
        let mut r: Vec<HostFunction> = Vec::new();
        let mut i: usize = 0;
        while i < self.functions.len()
            invariant
                i <= self.functions.len(),
                r.deep_view() == self.functions.deep_view().take(i as int),
            decreases self.functions.len() - i,
        {
            let ghost before = r.deep_view();
            r.push(self.functions[i].copied());
            assert(r.deep_view() =~= before.push(self.functions@[i as int].deep_view()));
            assert(self.functions.deep_view().take(i + 1) =~= self.functions.deep_view().take(i as int).push(
                self.functions@[i as int].deep_view(),
            ));
            i = i + 1;
        }
        assert(self.functions.deep_view().take(i as int) =~= self.functions.deep_view());
        r
    }
}

/// # A [`Host`] implementation that can be used where no host is required
///
/// Does not provide any functions.
pub struct NoHost;

impl Host for NoHost {
    open spec fn spec_functions(&self) -> Seq<HostFunctionView> {
        Seq::empty()
    }

    fn functions(&self) -> (r: Vec<HostFunction>) {
        let r: Vec<HostFunction> = Vec::new();
        assert(r.deep_view() =~= Seq::<HostFunctionView>::empty());
        r
    }
}

} // verus!
