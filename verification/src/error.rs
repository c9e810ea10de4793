use vstd::prelude::*;

verus! {

/// The two ways an operation of this library can fail.
#[derive(Clone, Copy, Debug, PartialEq, Eq, Structural)]
pub enum Error {
    /// An argument lies outside the values the operation is defined for.
    InvalidArgument,
    /// A grid handed to a stage does not have the size that the stage declared
    /// for the requested output.
    ContractViolation,
}

} // verus!
