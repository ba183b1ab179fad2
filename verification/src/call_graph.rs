//! # Functions, organized by their dependencies

use vstd::prelude::*;

use crate::location::{BranchLocation, FunctionLocation};

verus! {

/// # A group of functions that depend on each other
///
/// The functions of a cluster are mutually recursive: each one depends on each
/// other one, directly or indirectly. A function that is not recursive is alone
/// in its cluster.
#[derive(Debug)]
pub struct Cluster {
    /// # The functions in the cluster; a function's index is its position
    pub functions: Vec<FunctionLocation>,
    /// # The functions in the cluster that diverge, once they are known
    pub divergent_functions: Option<Vec<FunctionLocation>>,
    /// # The branches in the cluster that do not diverge, in an order in which
    /// they can be processed, once they are known
    pub non_divergent_branches: Option<Vec<BranchLocation>>,
}

/// # The mathematical model of a [`Cluster`]
pub ghost struct ClusterView {
    pub functions: Seq<FunctionLocation>,
    pub divergent_functions: Option<Seq<FunctionLocation>>,
    pub non_divergent_branches: Option<Seq<BranchLocation>>,
}

impl DeepView for Cluster {
    type V = ClusterView;

    open spec fn deep_view(&self) -> ClusterView {
        ClusterView {
            functions: self.functions@,
            divergent_functions: match &self.divergent_functions {
                Some(f) => Some(f@),
                None => None,
            },
            non_divergent_branches: match &self.non_divergent_branches {
                Some(b) => Some(b@),
                None => None,
            },
        }
    }
}

/// # All functions, as clusters, ordered by their dependencies
///
/// A cluster comes after the clusters of all functions that its functions
/// depend on: the order starts at the leaves of the call graph.
#[derive(Debug)]
pub struct OrderedFunctions {
    pub clusters: Vec<Cluster>,
}

impl OrderedFunctions {
    /// # The clusters, starting at the leaves of the call graph
    pub fn clusters_from_leaves(&self) -> (r: &Vec<Cluster>)
        ensures
            r.deep_view() == self.clusters.deep_view(),
    {
        &self.clusters
    }
}

} // verus!
