use vstd::prelude::*;

verus! {

/// An operand taken as it is, or transposed, without materialising the transpose.
#[derive(Clone, Copy, Debug)]
pub enum Op<T> {
    NoOp(T),
    Transpose(T),
}

impl<T> Op<T> {
    /// The wrapped operand, whatever the tag.
    pub open spec fn operand(self) -> T {
        match self {
            Op::NoOp(t) => t,
            Op::Transpose(t) => t,
        }
    }

    /// The operand is used transposed.
    pub open spec fn is_transposed(self) -> bool {
        self is Transpose
    }
}

/// The different kinds of operation errors that may occur.
#[non_exhaustive]
#[derive(Clone, Copy, Debug, PartialEq, Eq, Structural)]
pub enum OperationErrorKind {
    /// One or more sparsity patterns involved in the operation violate the expectations of the
    /// routine: for example, the output pattern cannot hold the result of the operation.
    InvalidPattern,
}

/// A description of the error that occurred during an arithmetic operation.
#[derive(Clone, Debug)]
pub struct OperationError {
    error_kind: OperationErrorKind,
    message: String,
}

impl OperationError {
    pub closed spec fn kind_spec(&self) -> OperationErrorKind {
        self.error_kind
    }

    pub closed spec fn message_spec(&self) -> Seq<char> {
        self.message@
    }

    pub(crate) fn from_kind_and_message(error_type: OperationErrorKind, message: String) -> (r: Self)
        ensures
            r.kind_spec() == error_type,
            r.message_spec() == message@,
    {
        OperationError { error_kind: error_type, message }
    }

    /// The operation error kind.
    pub fn kind(&self) -> (r: &OperationErrorKind)
        ensures
            *r == self.kind_spec(),
    {
        &self.error_kind
    }

    /// The human-readable description of the error.
    pub fn message(&self) -> (r: &String)
        ensures
            r@ == self.message_spec(),
    {
        &self.message
    }
}

} // verus!
