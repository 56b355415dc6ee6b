use vstd::prelude::*;

verus! {

/// Failure modes of the codec.
///
/// Every error is returned to the immediate caller as a typed value; the
/// codec never recovers locally and never patches malformed input.
#[derive(Clone, Copy, Debug, PartialEq, Eq, Structural)]
pub enum Error {
    /// The input buffer is shorter than a field requires during decode.
    UnexpectedEnd,
    /// A union discriminant byte outside the valid set.
    UnknownDiscriminant,
    /// A malformed field, such as a big-integer length prefix that exceeds
    /// the integer's width.
    Formatting,
    /// A buffer of the required size could not be obtained during encode.
    AllocationError,
}

} // verus!
