use vstd::prelude::*;

verus! {

/// The queue an operation was submitted to.
#[derive(Debug, Clone, Copy, PartialEq, Eq, Structural)]
pub enum OperationType {
    Graphics,
    Transfer,
}

/// The last operation submitted to a queue and, while it may still run,
/// the future that signals its end.
#[derive(Debug, Clone)]
pub struct Operation<F> {
    pub operation_type: OperationType,
    pub future: Option<F>,
}

impl<F> Operation<F> {
    /// A pending graphics operation.
    pub fn graphics(future: F) -> (r: Self)
        ensures
            r.operation_type == OperationType::Graphics,
            r.future == Some(future),
    {
        Operation { operation_type: OperationType::Graphics, future: Some(future) }
    }

    /// A pending transfer operation.
    pub fn transfer(future: F) -> (r: Self)
        ensures
            r.operation_type == OperationType::Transfer,
            r.future == Some(future),
    {
        Operation { operation_type: OperationType::Transfer, future: Some(future) }
    }

    /// Whether work of type `operation_type` that follows this operation
    /// must wait on a semaphore: only when this operation is pending and ran
    /// on the other queue.
    pub fn needs_semaphore(&self, operation_type: OperationType) -> (r: bool)
        ensures
            r == (self.future is Some && operation_type != self.operation_type),
    {
        if self.future.is_none() {
            return false;
        }
        !(operation_type == self.operation_type)
    }
}

} // verus!
