use vstd::prelude::*;

verus! {

/// The error kinds that an operation on image records or feature vectors can
/// report. No operation panics on malformed-but-representable input: every
/// structural invariant violation is reported through one of these kinds.
#[derive(Clone, Copy, PartialEq, Eq, Structural, Debug)]
pub enum Error {
    /// The record's layout tag is incompatible with the requested conversion.
    InvalidLayout,
    /// An indexed-layout record carries no palette.
    MissingPalette,
    /// The palette's colour count lies outside 1..=256.
    PaletteSizeInvalid,
    /// The transparency table's length does not match the palette's colour
    /// count one to one.
    TransparencyMismatch,
    /// Two numeric vectors handed to a similarity computation differ in
    /// length.
    LengthMismatch,
    /// A collaborator-level fault: the container file could not be found or
    /// read.
    NotFoundOrUnreadable,
    /// A collaborator-level fault: the container data could not be decoded.
    DecodeFailure,
}

} // verus!
