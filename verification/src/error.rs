//! The decode failure taxonomy shared by every decoder in the crate.

use vstd::prelude::*;

verus! {

/// Why a decode failed.
///
/// Every decoder returns one of these instead of panicking, so a server
/// speaking a newer protocol revision degrades into a reportable failure.
#[derive(Clone, Copy, Debug, PartialEq, Eq, Structural)]
pub enum DecodeError {
    /// Fewer bytes remain in the buffer than a field declares.
    UnexpectedEndOfBuffer,
    /// A length prefix is negative (other than the null marker), or a slice
    /// length does not match a fixed-width type.
    InvalidLength,
    /// The bytes are structurally malformed (bad UUID, missing decimal
    /// separator).
    InvalidEncoding,
    /// An error code, write-type tag or consistency code that this crate
    /// does not recognize.
    UnknownDiscriminant,
}

} // verus!
