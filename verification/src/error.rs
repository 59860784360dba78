use vstd::prelude::*;

verus! {

/// Why a program could not be lowered.
#[derive(Clone, Copy, Debug, PartialEq, Eq, Structural)]
pub enum CompileError {
    /// A variable is declared twice in one function scope.
    DuplicateVariable,
    /// A function is declared twice directly inside one function.
    DuplicateFunction,
    /// A name is read or assigned that is neither a parameter nor a local.
    UndefinedVariable,
    /// The left-hand side of an assignment is not a plain identifier.
    InvalidAssignmentTarget,
    /// A called name is neither declared here nor an enclosing function.
    UnresolvedCall,
    /// A binary operator outside add, subtract, multiply, remainder,
    /// equality and less-or-equal.
    UnsupportedOperator,
    /// A callee that is neither an identifier nor `console.log`.
    UnsupportedCallee,
    /// A node kind outside the supported subset.
    UnsupportedConstruct,
}

} // verus!
