//! Graphs whose edges lead one way.

use crate::graph::order::id_laws;
use crate::graph::traverser::{
    neighbors, Traversable, Traverser, TraverserAccess, TraverserTraits,
};
use crate::graph::walk::{
    all_ids, lemma_successors_bounds, reachable_set, successors, walk_from,
};
use crate::graph::{Graph, GraphAccess, GraphType};
use vstd::prelude::*;

verus! {

/// The flavor of a graph whose edges lead one way: an edge is stored once.
pub struct Directed();

impl GraphType for Directed {
    open spec fn mirrored() -> bool {
        false
    }

    fn mirrors() -> (b: bool) {
        false
    }
}

pub type DirectedGraph<I, N, E> = Graph<Directed, I, N, E>;

pub type DiTraverser<'a, I, N, E> = Traverser<'a, I, N, E, DirectedGraph<I, N, E>>;

impl<'a, I, N, E> TraverserAccess<I> for DiTraverser<'a, I, N, E> where
    I: Ord + Clone,
 {
    open spec fn next(&self) -> spec_fn(I) -> Seq<I> {
        successors(self.target().model())
    }

    open spec fn ids(&self) -> Set<I> {
        all_ids(self.target().model())
    }

    proof fn lemma_bounds(&self, start: I) {
        self.target().lemma_model_finite();
        lemma_successors_bounds(self.target().model(), start);
    }

    fn successors(&self, id: &I) -> (v: Vec<I>) {
        neighbors(self.graph().data(), id)
    }
}

impl<'a, I, N, E> TraverserTraits<I> for DiTraverser<'a, I, N, E> where
    I: Ord + Clone,
 {

}

impl<I, N, E> Traversable<I, N, E> for DirectedGraph<I, N, E> where
    I: Ord + Clone,
 {

}

impl<I, N, E> DirectedGraph<I, N, E> where I: Ord + Clone {
    /// The walk breadth first from `start` over the edges of this graph.
    pub fn bfs(&self, start: I) -> (order: Vec<I>)
        requires
            id_laws::<I>(),
        ensures
            order@ == walk_from(successors(self.model()), false, all_ids(self.model()), start),
            order@.no_duplicates(),
            order@.to_set() == reachable_set(successors(self.model()), start),
            order@.len() == reachable_set(successors(self.model()), start).len(),
    {
        self.traverser().bfs(start)
    }

    /// The walk depth first from `start` over the edges of this graph.
    pub fn dfs(&self, start: I) -> (order: Vec<I>)
        requires
            id_laws::<I>(),
        ensures
            order@ == walk_from(successors(self.model()), true, all_ids(self.model()), start),
            order@.no_duplicates(),
            order@.to_set() == reachable_set(successors(self.model()), start),
            order@.len() == reachable_set(successors(self.model()), start).len(),
    {
        self.traverser().dfs(start)
    }
}

} // verus!
