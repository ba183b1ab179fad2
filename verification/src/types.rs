//! # Types of values, and the signatures of functions

use vstd::prelude::*;

use crate::location::{BranchLocation, FragmentLocation, FunctionLocation};

verus! {

/// # The index of a type in a table of types
#[derive(Clone, Copy, Debug, PartialEq, Eq, Structural, PartialOrd, Ord)]
pub struct TypeIndex(pub usize);

/// # The type of a value
#[derive(Debug, PartialEq, Eq)]
pub enum Type {
    /// # A function with the given signature
    Function { signature: Signature },
    /// # No value at all; the result of a function that never returns
    Empty,
    /// # A number
    Number,
    /// # A type that could not be inferred
    Unknown,
}

/// # A signature that refers to types by their index in a table of types
#[derive(Debug, PartialEq, Eq)]
pub struct Signature {
    pub inputs: Vec<TypeIndex>,
    pub outputs: Vec<TypeIndex>,
}

/// # A signature that holds its types directly
#[derive(Debug, PartialEq, Eq)]
pub struct ConcreteSignature {
    pub inputs: Vec<Type>,
    pub outputs: Vec<Type>,
}

/// # The types of a program's expressions, branches and functions
///
/// Signatures refer to types by their index in `inner`: a type's index is its
/// position there. Each of the other fields assigns signatures to locations;
/// where a location occurs more than once, its last entry counts.
#[derive(Debug)]
pub struct Types {
    pub inner: Vec<Type>,
    pub of_expressions: Vec<(FragmentLocation, Signature)>,
    pub of_branches: Vec<(BranchLocation, Signature)>,
    pub of_functions: Vec<(FunctionLocation, Signature)>,
}

/// # The mathematical model of a [`Signature`]
pub ghost struct SignatureView {
    pub inputs: Seq<TypeIndex>,
    pub outputs: Seq<TypeIndex>,
}

/// # The mathematical model of [`Types`]
pub ghost struct TypesView {
    pub inner: Seq<TypeView>,
    pub of_expressions: Map<FragmentLocation, SignatureView>,
    pub of_branches: Map<BranchLocation, SignatureView>,
    pub of_functions: Map<FunctionLocation, SignatureView>,
}

impl DeepView for Signature {
    type V = SignatureView;

    open spec fn deep_view(&self) -> SignatureView {
        SignatureView { inputs: self.inputs@, outputs: self.outputs@ }
    }
}

/// The entries, each with its signature's model
pub open spec fn entries_view<K>(entries: Seq<(K, Signature)>) -> Seq<(K, SignatureView)> {
    entries.map_values(|entry: (K, Signature)| (entry.0, entry.1.deep_view()))
}

/// The map that the entries describe: each key to the value of its last entry
pub open spec fn entries_map<K, V>(entries: Seq<(K, V)>) -> Map<K, V>
    decreases entries.len(),
{
    if entries.len() == 0 {
        Map::empty()
    } else {
        entries_map(entries.drop_last()).insert(entries.last().0, entries.last().1)
    }
}

impl DeepView for Types {
    type V = TypesView;

    open spec fn deep_view(&self) -> TypesView {
        TypesView {
            inner: self.inner.deep_view(),
            of_expressions: entries_map(entries_view(self.of_expressions@)),
            of_branches: entries_map(entries_view(self.of_branches@)),
            of_functions: entries_map(entries_view(self.of_functions@)),
        }
    }
}

/// # The mathematical model of a [`Type`]
pub ghost enum TypeView {
    Function { inputs: Seq<TypeIndex>, outputs: Seq<TypeIndex> },
    Empty,
    Number,
    Unknown,
}

impl DeepView for Type {
    type V = TypeView;

    open spec fn deep_view(&self) -> TypeView {
        match self {
            Type::Function { signature } => TypeView::Function {
                inputs: signature.inputs@,
                outputs: signature.outputs@,
            },
            Type::Empty => TypeView::Empty,
            Type::Number => TypeView::Number,
            Type::Unknown => TypeView::Unknown,
        }
    }
}

/// The last entry for `key` decides what the entries map it to.
pub proof fn entries_map_last<K, V>(entries: Seq<(K, V)>, key: K, j: int)
    requires
        0 <= j < entries.len(),
        entries[j].0 == key,
        forall|l: int| j < l < entries.len() ==> #[trigger] entries[l].0 != key,
    ensures
        entries_map(entries).contains_key(key),
        entries_map(entries)[key] == entries[j].1,
    decreases entries.len(),
{
    if j < entries.len() - 1 {
        entries_map_last(entries.drop_last(), key, j);
    }
}

/// A key without entries is not in the map that the entries describe.
pub proof fn entries_map_absent<K, V>(entries: Seq<(K, V)>, key: K)
    requires
        forall|l: int| 0 <= l < entries.len() ==> #[trigger] entries[l].0 != key,
    ensures
        !entries_map(entries).contains_key(key),
    decreases entries.len(),
{
    if entries.len() > 0 {
        entries_map_absent(entries.drop_last(), key);
    }
}

impl Types {
    /// # An empty table, with no signatures
    pub fn new() -> (r: Types)
        ensures
            r.deep_view() == (TypesView {
                inner: Seq::empty(),
                of_expressions: Map::empty(),
                of_branches: Map::empty(),
                of_functions: Map::empty(),
            }),
    {
        let r = Types {
            inner: Vec::new(),
            of_expressions: Vec::new(),
            of_branches: Vec::new(),
            of_functions: Vec::new(),
        };
        assert(r.inner.deep_view() =~= Seq::<TypeView>::empty());
        r
    }

    /// # The signature of the expression at `location`, if it has one
    pub fn signature_of_expression(&self, location: &FragmentLocation) -> (r: Option<&Signature>)
        ensures
            match r {
                Some(s) => self.deep_view().of_expressions.contains_key(*location)
                    && self.deep_view().of_expressions[*location] == s.deep_view(),
                None => !self.deep_view().of_expressions.contains_key(*location),
            },
    {
        let ghost entries = entries_view(self.of_expressions@);
        let mut i = self.of_expressions.len();
        while i > 0
            invariant
                i <= self.of_expressions@.len(),
                entries == entries_view(self.of_expressions@),
                forall|l: int| i <= l < entries.len() ==> #[trigger] entries[l].0 != *location,
            decreases i,
        {
            if self.of_expressions[i - 1].0.same_as(location) {
                proof {
                    entries_map_last(entries, *location, i - 1);
                }
                return Some(&self.of_expressions[i - 1].1);
            }
            i = i - 1;
        }
        proof {
            entries_map_absent(entries, *location);
        }
        None
    }

    /// # The signature of the branch at `location`, if it has one
    pub fn signature_of_branch(&self, location: &BranchLocation) -> (r: Option<&Signature>)
        ensures
            match r {
                Some(s) => self.deep_view().of_branches.contains_key(*location)
                    && self.deep_view().of_branches[*location] == s.deep_view(),
                None => !self.deep_view().of_branches.contains_key(*location),
            },
    {
        let ghost entries = entries_view(self.of_branches@);
        let mut i = self.of_branches.len();
        while i > 0
            invariant
                i <= self.of_branches@.len(),
                entries == entries_view(self.of_branches@),
                forall|l: int| i <= l < entries.len() ==> #[trigger] entries[l].0 != *location,
            decreases i,
        {
            if self.of_branches[i - 1].0.same_as(location) {
                proof {
                    entries_map_last(entries, *location, i - 1);
                }
                return Some(&self.of_branches[i - 1].1);
            }
            i = i - 1;
        }
        proof {
            entries_map_absent(entries, *location);
        }
        None
    }

    /// # The signature of the function at `location`, if it has one
    pub fn signature_of_function(&self, location: &FunctionLocation) -> (r: Option<&Signature>)
        ensures
            match r {
                Some(s) => self.deep_view().of_functions.contains_key(*location)
                    && self.deep_view().of_functions[*location] == s.deep_view(),
                None => !self.deep_view().of_functions.contains_key(*location),
            },
    {
        let ghost entries = entries_view(self.of_functions@);
        let mut i = self.of_functions.len();
        while i > 0
            invariant
                i <= self.of_functions@.len(),
                entries == entries_view(self.of_functions@),
                forall|l: int| i <= l < entries.len() ==> #[trigger] entries[l].0 != *location,
            decreases i,
        {
            if self.of_functions[i - 1].0.same_as(location) {
                proof {
                    entries_map_last(entries, *location, i - 1);
                }
                return Some(&self.of_functions[i - 1].1);
            }
            i = i - 1;
        }
        proof {
            entries_map_absent(entries, *location);
        }
        None
    }
}

impl Type {
    /// # A copy of this type
    pub fn copied(&self) -> (r: Type)
        ensures
            r.deep_view() == self.deep_view(),
    {
        match self {
            Type::Function { signature } => Type::Function {
                signature: Signature {
                    inputs: copy_indices(&signature.inputs),
                    outputs: copy_indices(&signature.outputs),
                },
            },
            Type::Empty => Type::Empty,
            Type::Number => Type::Number,
            Type::Unknown => Type::Unknown,
        }
    }
}

impl Signature {
    /// # A copy of this signature
    pub fn copied(&self) -> (r: Signature)
        ensures
            r.deep_view() == self.deep_view(),
    {
        Signature { inputs: copy_indices(&self.inputs), outputs: copy_indices(&self.outputs) }
    }
}

/// The types at `indices` in `table`
pub open spec fn types_at(table: Seq<TypeView>, indices: Seq<TypeIndex>) -> Seq<TypeView> {
    indices.map_values(|index: TypeIndex| table[index.0 as int])
}

/// Whether each of `indices` refers to a type in a table of `len` types
pub open spec fn all_in_table(indices: Seq<TypeIndex>, len: nat) -> bool {
    forall|i: int| 0 <= i < indices.len() ==> (#[trigger] indices[i]).0 < len
}

/// # The types at `indices` in `types`, if each of them is there
fn look_up_types(indices: &Vec<TypeIndex>, types: &Types) -> (r: Option<Vec<Type>>)
    ensures
        match r {
            Some(v) => all_in_table(indices@, types.inner@.len()) && v.deep_view() == types_at(
                types.inner.deep_view(),
                indices@,
            ),
            None => !all_in_table(indices@, types.inner@.len()),
        },
{
    let mut r: Vec<Type> = Vec::new();
    let n = indices.len();
    let mut i: usize = 0;
    while i < n
        invariant
            n == indices@.len(),
            i <= n,
            all_in_table(indices@.take(i as int), types.inner@.len()),
            r.deep_view() == types_at(types.inner.deep_view(), indices@.take(i as int)),
        decreases n - i,
    {
        if indices[i].0 >= types.inner.len() {
            return None;
        }
        let ghost before = r.deep_view();
        r.push(types.inner[indices[i].0].copied());
        proof {
            assert(r.deep_view() =~= before.push(types.inner.deep_view()[indices@[i as int].0 as int]));
            assert(indices@.take(i + 1) =~= indices@.take(i as int).push(indices@[i as int]));
            assert(types_at(types.inner.deep_view(), indices@.take(i + 1)) =~= types_at(
                types.inner.deep_view(),
                indices@.take(i as int),
            ).push(types.inner.deep_view()[indices@[i as int].0 as int]));
        }
        i = i + 1;
    }
    assert(indices@.take(n as int) =~= indices@);
    Some(r)
}

impl Signature {
    /// # The signature with the types that it refers to in `types`
    ///
    /// Returns `None`, if one of them is not there.
    pub fn to_concrete_signature(&self, types: &Types) -> (r: Option<ConcreteSignature>)
        ensures
            match r {
                Some(c) => all_in_table(self.inputs@, types.inner@.len()) && all_in_table(
                    self.outputs@,
                    types.inner@.len(),
                ) && c.inputs.deep_view() == types_at(types.inner.deep_view(), self.inputs@)
                    && c.outputs.deep_view() == types_at(types.inner.deep_view(), self.outputs@),
                None => !(all_in_table(self.inputs@, types.inner@.len()) && all_in_table(
                    self.outputs@,
                    types.inner@.len(),
                )),
            },
    {
        let Some(inputs) = look_up_types(&self.inputs, types) else {
            return None;
        };
        let Some(outputs) = look_up_types(&self.outputs, types) else {
            return None;
        };
        Some(ConcreteSignature { inputs, outputs })
    }
}

impl ConcreteSignature {
    /// # A copy of this signature
    pub fn copied(&self) -> (r: ConcreteSignature)
        ensures
            r.inputs.deep_view() == self.inputs.deep_view(),
            r.outputs.deep_view() == self.outputs.deep_view(),
    {
        ConcreteSignature { inputs: copy_types(&self.inputs), outputs: copy_types(&self.outputs) }
    }
}

/// # A copy of a list of types
fn copy_types(types: &Vec<Type>) -> (r: Vec<Type>)
    ensures
        r.deep_view() == types.deep_view(),
{
    let mut r: Vec<Type> = Vec::new();
    let n = types.len();
    let mut i: usize = 0;
    while i < n
        invariant
            n == types@.len(),
            i <= n,
            r.deep_view() == types.deep_view().take(i as int),
        decreases n - i,
    {
        let ghost before = r.deep_view();
        r.push(types[i].copied());
        assert(r.deep_view() =~= before.push(types@[i as int].deep_view()));
        assert(types.deep_view().take(i + 1) =~= types.deep_view().take(i as int).push(types@[i as int].deep_view()));
        i = i + 1;
    }
    assert(types.deep_view().take(n as int) =~= types.deep_view());
    r
}

/// # A copy of a list of type indices
pub(crate) fn copy_indices(indices: &Vec<TypeIndex>) -> (r: Vec<TypeIndex>)
    ensures
        r@ == indices@,
{
    let mut r: Vec<TypeIndex> = Vec::new();
    let n = indices.len();
    let mut i: usize = 0;
    while i < n
        invariant
            n == indices@.len(),
            i <= n,
            r@ == indices@.take(i as int),
        decreases n - i,
    {
        r.push(indices[i]);
        assert(indices@.take(i + 1) =~= indices@.take(i as int).push(indices@[i as int]));
        i = i + 1;
    }
    assert(indices@.take(n as int) =~= indices@);
    r
}

} // verus!
