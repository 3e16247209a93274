//! Function graphs: graphs whose nodes are operations on variables. A walk
//! runs the operation of each node that it visits.

pub mod variable;
pub mod function;
pub mod operation;

use crate::function_graph::operation::{Error as OperationError, Operation};
use crate::function_graph::variable::{made_of, Variable, Variables};
use crate::graph::order::{hash_laws, id_laws};
use crate::graph::traverser::{
    neighbors, Traversable, Traverser, TraverserAccess, TraverserTraits,
};
use crate::graph::walk::{all_ids, lemma_successors_bounds, successors};
use crate::graph::{
    copy_id, with_node, Error as GraphError, Graph, GraphAccess, GraphTraits, GraphType,
};
use std::hash::Hash;
use vstd::prelude::*;

verus! {

/// Why a change to a function graph was refused.
#[derive(Debug)]
pub enum Error {
    GraphError(GraphError),
    OperationError(OperationError),
}

impl From<GraphError> for Error {
    fn from(error: GraphError) -> (e: Error) {
        Error::GraphError(error)
    }
}

impl vstd::std_specs::convert::FromSpecImpl<GraphError> for Error {
    open spec fn obeys_from_spec() -> bool {
        true
    }

    open spec fn from_spec(error: GraphError) -> Error {
        Error::GraphError(error)
    }
}

impl From<OperationError> for Error {
    fn from(error: OperationError) -> (e: Error) {
        Error::OperationError(error)
    }
}

impl vstd::std_specs::convert::FromSpecImpl<OperationError> for Error {
    open spec fn obeys_from_spec() -> bool {
        true
    }

    open spec fn from_spec(error: OperationError) -> Error {
        Error::OperationError(error)
    }
}

/// The flavor of a function graph: an edge is stored once, in its direction.
pub struct Functional();

impl GraphType for Functional {
    open spec fn mirrored() -> bool {
        false
    }

    fn mirrors() -> (b: bool) {
        false
    }
}

pub type FnGraph<I, J> = Graph<Functional, I, Operation<J>, ()>;

pub type FnTraverser<'a, I, J> = Traverser<'a, I, Operation<J>, (), FnGraph<I, J>>;

impl<I, J> FnGraph<I, J> where I: Ord + Clone, J: Ord + Hash {
    /// Adds the node `id` with the operation that runs `function` on the
    /// variables of the given names; refused if the id is taken.
    pub fn add_operation<const N: usize, F>(
        &mut self,
        id: I,
        variables: [(J, Variable); N],
        function: F,
    ) -> (r: Result<(), Error>) where F: Fn(&Variables<J>) + Send + Sync + 'static
        requires
            id_laws::<I>(),
        ensures
            r == (if old(self).model().contains_key(id) {
                Err::<(), Error>(Error::GraphError(GraphError::NodeAlreadyExists))
            } else {
                Ok::<(), Error>(())
            }),
            old(self).model().contains_key(id) ==> final(self).model() == old(self).model(),
            !old(self).model().contains_key(id) ==> {
                &&& final(self).model() == with_node(
                    old(self).model(),
                    id,
                    final(self).model()[id].data,
                )
                &&& hash_laws::<J>() ==> made_of(
                    final(self).model()[id].data.bindings(),
                    variables@,
                )
            },
    {
        match self.add_node(id, Operation::new(variables, function)) {
            Ok(()) => Ok(()),
            Err(e) => Err(Error::from(e)),
        }
    }
}

impl<'a, I, J> TraverserAccess<I> for FnTraverser<'a, I, J> where I: Ord + Clone, J: Ord + Hash {
    open spec fn next(&self) -> spec_fn(I) -> Seq<I> {
        successors(self.target().model())
    }

    open spec fn ids(&self) -> Set<I> {
        all_ids(self.target().model())
    }

    proof fn lemma_bounds(&self, start: I) {
        self.target().lemma_model_finite();
        lemma_successors_bounds(self.target().model(), start);
    }

    fn successors(&self, id: &I) -> (v: Vec<I>) {
        neighbors(self.graph().data(), id)
    }
}

impl<'a, I, J> TraverserTraits<I> for FnTraverser<'a, I, J> where I: Ord + Clone, J: Ord + Hash {
    /// Runs the operation of the node `id`, if `id` is a node. So a walk runs
    /// the operation of each node that it reaches once, in the order of the
    /// visits.
    fn visit(&self, id: &I) {
        match self.graph().data().get_node(copy_id(id)) {
            Some(operation) => {
                operation.execute().unwrap();
            },
            None => {},
        }
    }
}

impl<I, J> Traversable<I, Operation<J>, ()> for FnGraph<I, J> where I: Ord + Clone, J: Ord + Hash {

}

} // verus!
