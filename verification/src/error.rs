use vstd::prelude::*;

verus! {

/// Failure taxonomy of the multiplication engines.
#[derive(Clone, Copy, Debug, PartialEq, Eq, Structural)]
pub enum MatError {
    /// The operands' shapes do not allow the requested operation.
    DimensionMismatch,
    /// A compute device or its kernel could not be acquired or compiled.
    ResourceUnavailable,
    /// The device handed back an inconsistent or unmappable result.
    DeviceFailure,
    /// Text handed to a parser was not in the interchange format.
    MalformedInput,
}

} // verus!
