//! The failures of the archive reader.

use vstd::prelude::*;

verus! {

/// Why an archive could not be loaded or an entry could not be read.
#[derive(Debug, Clone, PartialEq, Eq)]
pub enum MpqError {
    /// The source starts with neither header magic, or the header that a
    /// user-data header points to does not start with the file magic.
    BadMagic,
    /// The source ends before the bytes that a header, a table or a block
    /// declares.
    Truncated,
    /// A buffer handed to the cipher is not a whole number of 32-bit words.
    MisalignedCipherBuffer,
    /// No occupied entry of this name, given by its bytes.
    NotFound(Vec<u8>),
    /// The entry is encrypted.
    UnsupportedEncrypted,
    /// A compressed unit starts with a scheme byte that names no back end.
    UnknownCompressionScheme(u8),
    /// A back end rejected its input, or the plain text does not have the
    /// length that the directory declares.
    CorruptCompression,
}

/// A failure as contracts speak of it: `MpqError` with the name of a
/// missing entry as a sequence of bytes.
pub enum Failure {
    BadMagic,
    Truncated,
    MisalignedCipherBuffer,
    NotFound(Seq<u8>),
    UnsupportedEncrypted,
    UnknownCompressionScheme(u8),
    CorruptCompression,
}

impl View for MpqError {
    type V = Failure;

    open spec fn view(&self) -> Failure {
        match self {
            MpqError::BadMagic => Failure::BadMagic,
            MpqError::Truncated => Failure::Truncated,
            MpqError::MisalignedCipherBuffer => Failure::MisalignedCipherBuffer,
            MpqError::NotFound(name) => Failure::NotFound(name@),
            MpqError::UnsupportedEncrypted => Failure::UnsupportedEncrypted,
            MpqError::UnknownCompressionScheme(scheme) => Failure::UnknownCompressionScheme(
                *scheme,
            ),
            MpqError::CorruptCompression => Failure::CorruptCompression,
        }
    }
}

} // verus!
