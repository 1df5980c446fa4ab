use vstd::prelude::*;

verus! {

/// Why evaluation stopped without a result.
#[derive(Debug, PartialEq)]
pub enum EngineError {
    /// A name was read or assigned that no scope on the stack binds.
    IdentifierNotFound { name: String },
    /// The left side of `=` is not an identifier.
    InvalidAssignmentTarget,
    /// `let` named a binding that already exists in the current scope.
    DuplicateBinding { name: String },
    /// The object id counter has no fresh value left.
    ResourceExhausted,
}

} // verus!
