//! The failures the buffer surfaces to its caller.
use vstd::prelude::*;

verus! {

/// A collection of all possible errors.
///
/// Errors could be divided into write and read errors, but this makes
/// error handling a bit less comfortable, so they are united here.
#[derive(Debug)]
pub enum SwapVecError {
    /// The program is missing permissions to create a temporary file.
    MissingPermissions,
    /// A batch could not be written due to a full disk.
    OutOfDisk,
    /// A read back batch had a wrong checksum.
    WrongChecksum,
    /// The batch was read back successfully, but decoding the bytes into
    /// the element type failed.
    SerializationFailed(bincode::ErrorKind),
    /// Every other possibility.
    Other,
}

#[verifier::external_type_specification]
#[verifier::external_body]
pub struct ExBincodeErrorKind(bincode::ErrorKind);

} // verus!
