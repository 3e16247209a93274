//! Asynchronous operations: a function that runs asynchronously, together
//! with the variables it works on.

use crate::function_graph::variable::{made_of, Variable, Variables};
use crate::graph::order::hash_laws;
use std::hash::Hash;
use vstd::prelude::*;

verus! {

/// Why running an asynchronous operation failed. The variant is kept for
/// functions that can fail; no operation produces it yet.
#[derive(Debug, Clone, Copy, PartialEq, Eq, Structural)]
pub enum Error {
    ExecutionError,
}

/// A function of the type `F`, which is run on the variables and awaited by
/// whoever drives the graph, together with the variables it works on.
#[verifier::reject_recursive_types(I)]
pub struct AsyncOperation<I, F> {
    variables: Variables<I>,
    function: F,
}

impl<I, F> AsyncOperation<I, F> {
    /// The variables of the operation, by name.
    pub closed spec fn bindings(&self) -> Map<I, Variable> {
        self.variables@
    }

    /// The function of the operation.
    pub closed spec fn task(&self) -> F {
        self.function
    }
}

impl<I, F> AsyncOperation<I, F> where I: Ord + Hash {
    /// The operation that runs `function` on the variables of the given
    /// names.
    pub fn new<const N: usize>(variables: [(I, Variable); N], function: F) -> (op: Self)
        ensures
            op.task() == function,
            hash_laws::<I>() ==> made_of(op.bindings(), variables@),
    {
        Self { variables: Variables::new(variables), function }
    }

    pub fn variables(&self) -> (v: &Variables<I>)
        ensures
            v@ == self.bindings(),
    {
        &self.variables
    }

    pub fn variables_mut(&mut self) -> (v: &mut Variables<I>)
        ensures
            v@ == old(self).bindings(),
            final(self).bindings() == final(v)@,
            final(self).task() == old(self).task(),
    {
        &mut self.variables
    }

    pub fn function(&self) -> (f: &F)
        ensures
            *f == self.task(),
    {
        &self.function
    }

    pub fn function_mut(&mut self) -> (f: &mut F)
        ensures
            *f == old(self).task(),
            final(self).task() == *final(f),
            final(self).bindings() == old(self).bindings(),
    {
        &mut self.function
    }
}

} // verus!
