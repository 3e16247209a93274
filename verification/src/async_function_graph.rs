//! Asynchronous function graphs: graphs whose nodes are operations that run
//! asynchronously, and whose edges are gates. A walk follows an edge only
//! while its payload is `true`.

pub mod operation;

use crate::async_function_graph::operation::{AsyncOperation, Error as AsyncOperationError};
use crate::function_graph::variable::{made_of, Variable};
use crate::graph::order::{hash_laws, id_laws};
use crate::graph::traverser::{
    open_neighbors_of, Traversable, Traverser, TraverserAccess, TraverserTraits,
};
use crate::graph::walk::{all_ids, lemma_open_successors_bounds, open_successors};
use crate::graph::{with_node, Error as GraphError, Graph, GraphAccess, GraphTraits, GraphType};
use std::hash::Hash;
use vstd::prelude::*;

verus! {

/// Why a change to an asynchronous function graph was refused.
#[derive(Debug)]
pub enum Error {
    GraphError(GraphError),
    OperationError(AsyncOperationError),
}

impl From<GraphError> for Error {
    fn from(error: GraphError) -> (e: Error) {
        Error::GraphError(error)
    }
}

impl vstd::std_specs::convert::FromSpecImpl<GraphError> for Error {
    open spec fn obeys_from_spec() -> bool {
        true
    }

    open spec fn from_spec(error: GraphError) -> Error {
        Error::GraphError(error)
    }
}

impl From<AsyncOperationError> for Error {
    fn from(error: AsyncOperationError) -> (e: Error) {
        Error::OperationError(error)
    }
}

impl vstd::std_specs::convert::FromSpecImpl<AsyncOperationError> for Error {
    open spec fn obeys_from_spec() -> bool {
        true
    }

    open spec fn from_spec(error: AsyncOperationError) -> Error {
        Error::OperationError(error)
    }
}

/// The flavor of an asynchronous function graph: an edge is stored once, in
/// its direction.
#[derive(Debug)]
pub struct AsyncFn();

impl GraphType for AsyncFn {
    open spec fn mirrored() -> bool {
        false
    }

    fn mirrors() -> (b: bool) {
        false
    }

}

/// A graph with gates for edges and any payload for nodes.
pub type GatedGraph<I, N> = Graph<AsyncFn, I, N, bool>;

/// A graph of operations that run the function type `F` on variables with
/// the name type `J`.
pub type AsyncFnGraph<I, J, F> = GatedGraph<I, AsyncOperation<J, F>>;

pub type FnTraverser<'a, I, N> = Traverser<'a, I, N, bool, GatedGraph<I, N>>;

impl<I, J, F> AsyncFnGraph<I, J, F> where I: Ord + Clone, J: Ord + Hash {
    /// Adds the node `id` with the operation that runs `function` on the
    /// variables of the given names; refused if the id is taken.
    pub fn add_operation<const N: usize>(
        &mut self,
        id: I,
        variables: [(J, Variable); N],
        function: F,
    ) -> (r: Result<(), Error>)
        requires
            id_laws::<I>(),
        ensures
            r == (if old(self).model().contains_key(id) {
                Err::<(), Error>(Error::GraphError(GraphError::NodeAlreadyExists))
            } else {
                Ok::<(), Error>(())
            }),
            old(self).model().contains_key(id) ==> final(self).model() == old(self).model(),
            !old(self).model().contains_key(id) ==> {
                &&& final(self).model() == with_node(
                    old(self).model(),
                    id,
                    final(self).model()[id].data,
                )
                &&& final(self).model()[id].data.task() == function
                &&& hash_laws::<J>() ==> made_of(
                    final(self).model()[id].data.bindings(),
                    variables@,
                )
            },
    {
        match self.add_node(id, AsyncOperation::new(variables, function)) {
            Ok(()) => Ok(()),
            Err(e) => Err(Error::from(e)),
        }
    }
}

impl<'a, I, N> TraverserAccess<I> for FnTraverser<'a, I, N> where I: Ord + Clone {
    open spec fn next(&self) -> spec_fn(I) -> Seq<I> {
        open_successors(self.target().model())
    }

    open spec fn ids(&self) -> Set<I> {
        all_ids(self.target().model())
    }

    proof fn lemma_bounds(&self, start: I) {
        self.target().lemma_model_finite();
        lemma_open_successors_bounds(self.target().model(), start);
    }

    fn successors(&self, id: &I) -> (v: Vec<I>) {
        open_neighbors_of(self.graph().data(), id)
    }
}

impl<'a, I, N> TraverserTraits<I> for FnTraverser<'a, I, N> where I: Ord + Clone {

}

impl<I, N> Traversable<I, N, bool> for GatedGraph<I, N> where I: Ord + Clone {

}

} // verus!
