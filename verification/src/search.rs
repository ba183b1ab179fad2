//! # Searching code
//!
//! Searches return what they found together with search-specific metadata,
//! such as the location of what was found. The types that hold the results
//! provide further searches within them.

use vstd::prelude::*;

use crate::code::{
    named_location, Branch, BranchView, Expression, ExpressionView, Function, FunctionView, Functions,
};
use crate::location::{BranchIndex, BranchLocation, FragmentIndexInBranchBody, FragmentLocation, FunctionLocation};
use crate::passes::infer_types::{find_by_hash, position_by_hash};

verus! {

/// # The result of a search, alongside search-specific metadata
pub struct Find<T, M> {
    /// # The result of the search
    pub find: T,
    /// # The additional search-specific metadata
    pub metadata: M,
}

/// # A branch that was found by a search
pub struct FoundBranch {
    /// # The branch that was found
    pub branch: Branch,
    /// # The location of the branch that was found
    pub location: BranchLocation,
}

/// # A fragment that was found by a search
pub struct FoundFragment {
    /// # The fragment that was found
    pub fragment: Expression,
    /// # The location of the fragment that was found
    pub location: FragmentLocation,
}

/// The location of branch `index` of the function at `function`
pub open spec fn located_branch(function: FunctionLocation, index: int) -> BranchLocation {
    BranchLocation { parent: Box::new(function), index: BranchIndex(index as u32) }
}

/// The location of fragment `index` of the branch at `branch`
pub open spec fn located_fragment(branch: BranchLocation, index: int) -> FragmentLocation {
    FragmentLocation { parent: Box::new(branch), index: FragmentIndexInBranchBody(index as u32) }
}

impl Find<Function, FunctionLocation> {
    /// # The function's branches, each with its location
    pub fn branches(&self) -> (r: Vec<FoundBranch>)
        ensures
            r@.len() == self.find.branches@.len(),
            forall|i: int|
                0 <= i < r@.len() ==> (#[trigger] r@[i]).branch.deep_view() == self.find.branches@[i].deep_view()
                    && r@[i].location == located_branch(self.metadata, i),
    {
        let mut r: Vec<FoundBranch> = Vec::new();
        let n = self.find.branches.len();
        let mut i: usize = 0;
        while i < n
            invariant
                n == self.find.branches@.len(),
                i <= n,
                r@.len() == i,
                forall|j: int|
                    0 <= j < i ==> (#[trigger] r@[j]).branch.deep_view() == self.find.branches@[j].deep_view()
                        && r@[j].location == located_branch(self.metadata, j),
            decreases n - i,
        {
            r.push(
                FoundBranch {
                    branch: self.find.branches[i].copied(),
                    location: BranchLocation { parent: Box::new(self.metadata.copied()), index: BranchIndex(i as u32) },
                },
            );
            i = i + 1;
        }
        r
    }

    /// # The function's single branch
    ///
    /// Returns `None`, if the function does not have exactly one branch.
    pub fn find_single_branch(&self) -> (r: Option<FoundBranch>)
        ensures
            self.find.branches@.len() == 1 ==> (r matches Some(b) && b.branch.deep_view()
                == self.find.branches@[0].deep_view() && b.location == located_branch(self.metadata, 0)),
            self.find.branches@.len() != 1 ==> r is None,
    {
        if self.find.branches.len() != 1 {
            return None;
        }
        Some(
            FoundBranch {
                branch: self.find.branches[0].copied(),
                location: BranchLocation { parent: Box::new(self.metadata.copied()), index: BranchIndex(0) },
            },
        )
    }
}

impl FoundBranch {
    /// # The fragments in the branch's body, each with its location
    pub fn body(&self) -> (r: Vec<FoundFragment>)
        ensures
            r@.len() == self.branch.body@.len(),
            forall|i: int|
                0 <= i < r@.len() ==> (#[trigger] r@[i]).fragment.deep_view() == self.branch.body@[i].deep_view()
                    && r@[i].location == located_fragment(self.location, i),
    {
        let mut r: Vec<FoundFragment> = Vec::new();
        let n = self.branch.body.len();
        let mut i: usize = 0;
        while i < n
            invariant
                n == self.branch.body@.len(),
                i <= n,
                r@.len() == i,
                forall|j: int|
                    0 <= j < i ==> (#[trigger] r@[j]).fragment.deep_view() == self.branch.body@[j].deep_view()
                        && r@[j].location == located_fragment(self.location, j),
            decreases n - i,
        {
            r.push(
                FoundFragment {
                    fragment: self.branch.body[i].copied(),
                    location: FragmentLocation {
                        parent: Box::new(self.location.copied()),
                        index: FragmentIndexInBranchBody(i as u32),
                    },
                },
            );
            i = i + 1;
        }
        r
    }
}

impl Functions {
    /// # Find the first named function with the provided name
    pub fn find_by_name(&self, name: &str) -> (r: Option<Find<Function, FunctionLocation>>)
        ensures
            match self.deep_view().named_position(name@) {
                Some(i) => r matches Some(f) && f.find.deep_view() == self.deep_view().named[i].inner
                    && f.metadata == named_location(i),
                None => r is None,
            },
    {
        match self.find_named_position(name) {
            Some(i) => {
                proof {
                    crate::code::named_position_found(self.deep_view().named, name@);
                }
                Some(
                    Find {
                        find: self.named[i].inner.copied(),
                        metadata: FunctionLocation::NamedFunction {
                            index: crate::location::FunctionIndexInRootContext(i as u32),
                        },
                    },
                )
            },
            None => None,
        }
    }

    /// # Find the first named function with the provided hash
    pub fn find_by_hash(&self, hash: &crate::code::Hash) -> (r: Option<Find<Function, FunctionLocation>>)
        ensures
            match position_by_hash(self.deep_view().named, *hash) {
                Some(i) => r matches Some(f) && f.find.deep_view() == self.deep_view().named[i].inner
                    && f.metadata == named_location(i),
                None => r is None,
            },
    {
        match find_by_hash(self, hash) {
            Some(i) => {
                proof {
                    lemma_position_in_range(self.deep_view().named, *hash);
                }
                Some(
                    Find {
                        find: self.named[i].inner.copied(),
                        metadata: FunctionLocation::NamedFunction {
                            index: crate::location::FunctionIndexInRootContext(i as u32),
                        },
                    },
                )
            },
            None => None,
        }
    }

    /// # Find the branch at the given location
    pub fn find_branch_by_location(&self, location: &BranchLocation) -> (r: Option<&Branch>)
        ensures
            match self.deep_view().function_at(*location.parent) {
                Some(f) => if location.index.0 < f.branches.len() {
                    r matches Some(b) && b.deep_view() == f.branches[location.index.0 as int]
                } else {
                    r is None
                },
                None => r is None,
            },
    {
        let function = self.by_location(&location.parent)?;
        if (location.index.0 as usize) < function.branches.len() {
            Some(&function.branches[location.index.0 as usize])
        } else {
            None
        }
    }

    /// # Find the fragment at the given location
    pub fn find_fragment_by_location(&self, location: &FragmentLocation) -> (r: Option<&Expression>)
        ensures
            match self.deep_view().function_at(*location.parent.parent) {
                Some(f) => if location.parent.index.0 < f.branches.len() && location.index.0
                    < f.branches[location.parent.index.0 as int].body.len() {
                    r matches Some(e) && e.deep_view()
                        == f.branches[location.parent.index.0 as int].body[location.index.0 as int]
                } else {
                    r is None
                },
                None => r is None,
            },
    {
        let branch = self.find_branch_by_location(&location.parent)?;
        if (location.index.0 as usize) < branch.body.len() {
            Some(&branch.body[location.index.0 as usize])
        } else {
            None
        }
    }
}

proof fn lemma_position_in_range(named: Seq<crate::code::NamedFunctionView>, hash: crate::code::Hash)
    ensures
        position_by_hash(named, hash) matches Some(i) ==> 0 <= i < named.len(),
    decreases named.len(),
{
    if named.len() > 0 {
        lemma_position_in_range(named.drop_first(), hash);
    }
}

} // verus!
