//! Operations: a function together with the variables it works on.

use crate::function_graph::function::Function;
use crate::function_graph::variable::{made_of, Variable, Variables};
use crate::graph::order::hash_laws;
use std::hash::Hash;
use vstd::prelude::*;
use vstd::std_specs::cmp::PartialEqSpecImpl;

verus! {

/// Why running an operation failed. The variant is kept for functions that
/// can fail; no operation produces it yet: a function that finds a value of
/// another type than it expects leaves it alone.
#[derive(Debug, Clone, Copy, PartialEq, Eq, Structural)]
pub enum Error {
    ExecutionError,
}

/// A function together with the variables it works on.
#[verifier::reject_recursive_types(I)]
pub struct Operation<I> {
    variables: Variables<I>,
    function: Function<I>,
}

impl<I> PartialEq for Operation<I> {
    /// Operations are not told apart: `==` holds between any two.
    fn eq(&self, other: &Self) -> (r: bool) {
        true
    }
}

impl<I> PartialEqSpecImpl for Operation<I> {
    open spec fn obeys_eq_spec() -> bool {
        true
    }

    open spec fn eq_spec(&self, other: &Self) -> bool {
        true
    }
}

impl<I> Operation<I> {
    /// The variables of the operation, by name.
    pub closed spec fn bindings(&self) -> Map<I, Variable> {
        self.variables@
    }

    /// The function of the operation.
    pub closed spec fn task(&self) -> Function<I> {
        self.function
    }
}

impl<I> Operation<I> where I: Ord + Hash {
    /// The operation that runs `function` on the variables of the given
    /// names.
    pub fn new<const N: usize, F>(variables: [(I, Variable); N], function: F) -> (op: Self) where
        F: 'static + Fn(&Variables<I>) + Send + Sync,

        ensures
            hash_laws::<I>() ==> made_of(op.bindings(), variables@),
    {
        Self { variables: Variables::new(variables), function: Function::new(function) }
    }

    pub fn variables(&self) -> (v: &Variables<I>)
        ensures
            v@ == self.bindings(),
    {
        &self.variables
    }

    pub fn variables_mut(&mut self) -> (v: &mut Variables<I>)
        ensures
            v@ == old(self).bindings(),
            final(self).bindings() == final(v)@,
            final(self).task() == old(self).task(),
    {
        &mut self.variables
    }

    pub fn function(&self) -> (f: &Function<I>)
        ensures
            *f == self.task(),
    {
        &self.function
    }

    pub fn function_mut(&mut self) -> (f: &mut Function<I>)
        ensures
            *f == old(self).task(),
            final(self).task() == *final(f),
            final(self).bindings() == old(self).bindings(),
    {
        &mut self.function
    }

    /// Runs the function on the variables of the operation. The function
    /// may change the values of the variables, never which variables there
    /// are.
    pub fn execute(&self) -> (r: Result<(), Error>)
        ensures
            r is Ok,
    {
        self.function.call(&self.variables);
        Ok(())
    }

    /// As `execute`.
    pub fn execute_mut(&mut self) -> (r: Result<(), Error>)
        ensures
            r is Ok,
            final(self).bindings() == old(self).bindings(),
            final(self).task() == old(self).task(),
    {
        self.function.call(&self.variables);
        Ok(())
    }
}

} // verus!
