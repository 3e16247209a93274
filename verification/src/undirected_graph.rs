//! Graphs whose edges lead both ways.

use crate::graph::traverser::{
    neighbors, Traversable, Traverser, TraverserAccess, TraverserTraits,
};
use crate::graph::order::id_laws;
use crate::graph::walk::{
    all_ids, lemma_successors_bounds, reachable_set, successors, walk_from,
};
use crate::graph::{Graph, GraphAccess, GraphType};
use vstd::prelude::*;

verus! {

/// The flavor of a graph whose edges lead both ways: an edge is stored in
/// both directions, and the two count as one edge.
pub struct Undirected();

impl GraphType for Undirected {
    open spec fn mirrored() -> bool {
        true
    }

    fn mirrors() -> (b: bool) {
        true
    }
}

pub type UnGraph<I, N, E> = Graph<Undirected, I, N, E>;

pub type UndirectedGraph<I, N, E> = Graph<Undirected, I, N, E>;

pub type UnTraverser<'a, I, N, E> = Traverser<'a, I, N, E, UnGraph<I, N, E>>;

impl<'a, I, N, E> TraverserAccess<I> for UnTraverser<'a, I, N, E> where
    I: Ord + Clone,
 {
    open spec fn next(&self) -> spec_fn(I) -> Seq<I> {
        successors(self.target().model())
    }

    open spec fn ids(&self) -> Set<I> {
        all_ids(self.target().model())
    }

    proof fn lemma_bounds(&self, start: I) {
        self.target().lemma_model_finite();
        lemma_successors_bounds(self.target().model(), start);
    }

    fn successors(&self, id: &I) -> (v: Vec<I>) {
        neighbors(self.graph().data(), id)
    }
}

impl<'a, I, N, E> TraverserTraits<I> for UnTraverser<'a, I, N, E> where
    I: Ord + Clone,
 {

}

impl<I, N, E> Traversable<I, N, E> for UnGraph<I, N, E> where
    I: Ord + Clone,
 {

}

impl<I, N, E> UnGraph<I, N, E> where I: Ord + Clone {
    /// The walk breadth first from `start` over the edges of this graph.
    pub fn bfs(&self, start: I) -> (order: Vec<I>)
        requires
            id_laws::<I>(),
        ensures
            order@ == walk_from(successors(self.model()), false, all_ids(self.model()), start),
            order@.no_duplicates(),
            order@.to_set() == reachable_set(successors(self.model()), start),
            order@.len() == reachable_set(successors(self.model()), start).len(),
    {
        self.traverser().bfs(start)
    }

    /// The walk depth first from `start` over the edges of this graph.
    pub fn dfs(&self, start: I) -> (order: Vec<I>)
        requires
            id_laws::<I>(),
        ensures
            order@ == walk_from(successors(self.model()), true, all_ids(self.model()), start),
            order@.no_duplicates(),
            order@.to_set() == reachable_set(successors(self.model()), start),
            order@.len() == reachable_set(successors(self.model()), start).len(),
    {
        self.traverser().dfs(start)
    }
}

} // verus!
