use vstd::prelude::*;

verus! {

/// Errors raised while decoding an archive's trailer, index or entry data.
#[derive(Clone, Copy, Debug, PartialEq, Eq, Structural)]
pub enum PakReaderError {
    /// A read or seek ran past the end of the backing bytes.
    ReadError,
    /// A trailer candidate failed to decode as a header.
    ReadHeaderError,
    /// The magic constant of a trailer candidate did not match.
    MagicMismatch,
    /// No candidate trailer size produced a valid header.
    UnknownVersion,
    /// The archive's encrypted flag is set; encrypted archives are refused.
    EncryptionNotSupported,
    /// An entry selects a compression codec that has no implementation.
    UnsupportedCompression,
}

/// Errors surfaced by the top-level archive operations.
#[derive(Clone, Copy, Debug, PartialEq, Eq, Structural)]
pub enum PakError {
    /// Opening or reading the backing file failed before parsing began.
    FileError,
    /// Parsing the archive failed.
    ReaderError(PakReaderError),
}

} // verus!
