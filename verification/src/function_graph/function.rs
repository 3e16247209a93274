//! The function of an operation: a closure over the variables of the
//! operation.

use crate::function_graph::variable::Variables;
use std::sync::Arc;
use vstd::prelude::*;

verus! {

/// A closure that reads and writes the variables it is given. Clones share
/// the closure.
#[verifier::external_body]
#[verifier::reject_recursive_types(I)]
pub struct Function<I> {
    inner: Arc<Box<dyn Fn(&Variables<I>) + Send + Sync>>,
}

impl<I> Function<I> {
    /// `Arc::new` around the boxed closure.
    #[verifier::external_body]
    pub fn new<T>(function: T) -> Self where T: 'static + Fn(&Variables<I>) + Send + Sync {
        Self { inner: Arc::new(Box::new(function)) }
    }

    /// Calls the closure with `variables`. What the closure does to the
    /// values of the variables is its own affair; if it panics, so does this.
    #[verifier::external_body]
    fn invoke(&self, variables: &Variables<I>) {
        (self.inner)(variables)
    }

    /// Runs the function on `variables`.
    pub fn call(&self, variables: &Variables<I>) {
        self.invoke(variables)
    }
}

impl<I> Clone for Function<I> {
    /// `Arc::clone`: another handle to the same closure.
    #[verifier::external_body]
    fn clone(&self) -> Self {
        Self { inner: self.inner.clone() }
    }
}

} // verus!
