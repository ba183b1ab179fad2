//! # Locations of functions, branches and fragments within the code

use vstd::prelude::*;

verus! {

/// # The index of a named function in the root context
#[derive(Clone, Copy, Debug, PartialEq, Eq, Structural, PartialOrd, Ord)]
pub struct FunctionIndexInRootContext(pub u32);

/// # An index into the list of functions in a cluster
#[derive(Clone, Copy, Debug, PartialEq, Eq, Structural, PartialOrd, Ord)]
pub struct FunctionIndexInCluster(pub u32);

/// # The index of a branch within a function
#[derive(Clone, Copy, Debug, PartialEq, Eq, Structural, PartialOrd, Ord)]
pub struct BranchIndex(pub u32);

/// # The index of a fragment in a branch body
#[derive(Clone, Copy, Debug, PartialEq, Eq, Structural, PartialOrd, Ord)]
pub struct FragmentIndexInBranchBody(pub u32);

/// # The location of a fragment (an expression) in a branch body
#[derive(Debug, PartialEq, Eq)]
pub struct FragmentLocation {
    pub parent: Box<BranchLocation>,
    pub index: FragmentIndexInBranchBody,
}

/// # The location of a branch within a function
#[derive(Debug, PartialEq, Eq)]
pub struct BranchLocation {
    pub parent: Box<FunctionLocation>,
    pub index: BranchIndex,
}

/// # The location of a function
///
/// Named functions live in the root context. Anonymous functions are located
/// at the function literal that defines them.
#[derive(Debug, PartialEq, Eq)]
pub enum FunctionLocation {
    NamedFunction { index: FunctionIndexInRootContext },
    AnonymousFunction { location: FragmentLocation },
}

impl FragmentLocation {
    /// # A copy of this location
    pub fn copied(&self) -> (r: FragmentLocation)
        ensures
            r == *self,
        decreases *self,
    {
        FragmentLocation { parent: Box::new(self.parent.copied()), index: self.index }
    }

    /// # Whether this location is the same as `other`
    pub fn same_as(&self, other: &FragmentLocation) -> (r: bool)
        ensures
            r == (*self == *other),
        decreases *self,
    {
        self.index == other.index && self.parent.same_as(&other.parent)
    }
}

impl BranchLocation {
    /// # A copy of this location
    pub fn copied(&self) -> (r: BranchLocation)
        ensures
            r == *self,
        decreases *self,
    {
        BranchLocation { parent: Box::new(self.parent.copied()), index: self.index }
    }

    /// # Whether this location is the same as `other`
    pub fn same_as(&self, other: &BranchLocation) -> (r: bool)
        ensures
            r == (*self == *other),
        decreases *self,
    {
        self.index == other.index && self.parent.same_as(&other.parent)
    }
}

impl FunctionLocation {
    /// # A copy of this location
    pub fn copied(&self) -> (r: FunctionLocation)
        ensures
            r == *self,
        decreases *self,
    {
        match self {
            FunctionLocation::NamedFunction { index } => FunctionLocation::NamedFunction {
                index: *index,
            },
            FunctionLocation::AnonymousFunction { location } => FunctionLocation::AnonymousFunction {
                location: location.copied(),
            },
        }
    }

    /// # Whether this location is the same as `other`
    pub fn same_as(&self, other: &FunctionLocation) -> (r: bool)
        ensures
            r == (*self == *other),
        decreases *self,
    {
        match (self, other) {
            (
                FunctionLocation::NamedFunction { index: a },
                FunctionLocation::NamedFunction { index: b },
            ) => *a == *b,
            (
                FunctionLocation::AnonymousFunction { location: a },
                FunctionLocation::AnonymousFunction { location: b },
            ) => a.same_as(b),
            _ => false,
        }
    }
}

} // verus!
