//! The capability surface that the containers need from an incremental
//! computation engine: forcing an articulation point.

use vstd::prelude::*;
use crate::tree::Tree;
use crate::tree::tree_rank;
use crate::list::List;
use crate::list::list_rank;

verus! {

/// The logical content of an engine, as far as the containers observe it.
///
/// `trees` says what forcing a location yields when a tree is asked for, and
/// `lists` when a list is. `rank` bounds how deeply articulation points nest
/// below a location, which is how the absence of cycles among memoized nodes
/// is stated.
#[verifier::reject_recursive_types(L)]
pub struct Store<N, L, X, F> {
    pub trees: Map<L, Result<Tree<N, L, X>, F>>,
    pub lists: Map<L, Result<List<N, L, X>, F>>,
    pub rank: Map<L, nat>,
}

/// An incremental-computation engine, seen through its force operation.
///
/// Implementations promise that forcing is a function of the engine's logical
/// content, that it leaves that content as it was (only dependency bookkeeping
/// may change), and that the value handed back nests its own articulation points
/// strictly below the forced one. What the containers prove about elimination
/// holds of the engines that keep these promises.
pub trait Engine<N, L, X>: Sized {
    /// What a force fails with.
    type Error;

    /// The logical content of the engine.
    spec fn store(&self) -> Store<N, L, X, Self::Error>;

    /// Forces the articulation point at `loc` for the tree it stands for.
    fn force_tree(&mut self, loc: &L) -> (r: Result<Tree<N, L, X>, Self::Error>)
        ensures
            final(self).store() == old(self).store(),
            r == old(self).store().trees[*loc],
            r matches Ok(t) ==> tree_rank(old(self).store().rank, t) <= old(self).store().rank[*loc],
    ;

    /// Forces the articulation point at `loc` for the list it stands for.
    fn force_list(&mut self, loc: &L) -> (r: Result<List<N, L, X>, Self::Error>)
        ensures
            final(self).store() == old(self).store(),
            r == old(self).store().lists[*loc],
            r matches Ok(l) ==> list_rank(old(self).store().rank, l) <= old(self).store().rank[*loc],
    ;
}

} // verus!
