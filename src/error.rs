//! What can go wrong when opening or writing an archive.
use vstd::prelude::*;

verus! {

/// Errors related to opening a phar.
#[derive(Debug, Clone, Copy, PartialEq, Eq, Structural)]
pub enum Open {
    /// The archive ends before a field that it declares.
    UnexpectedEof,
    /// The stub does not start with `<?php`.
    IncorrectStubStart,
    /// No stub terminator `__HALT_COMPILER(); ?>\r\n` was found.
    NoHaltCompiler,
    /// The declared manifest length is over 1 MiB.
    ManifestTooLong,
    /// The content region does not end where the signature starts.
    ContentTooLong,
    /// The signature kind is none of md5, sha1, sha256 and sha512.
    UnknownSignatureKind,
    /// The signature magic is missing, or the digest does not match.
    BrokenSignature,
    /// An entry's content could not be decompressed.
    BrokenContent,
}

/// Errors related to writing a phar.
#[derive(Debug, Clone, Copy, PartialEq, Eq, Structural)]
pub enum Write {
    /// The compressor failed.
    Io,
    /// An alias is longer than a `u32` can state.
    AliasTooLong,
    /// A file name is longer than a `u32` can state.
    NameTooLong,
    /// Metadata is longer than a `u32` can state.
    MetadataTooLong,
    /// The manifest is longer than a `u32` can state.
    ManifestTooLarge,
    /// More entries than a `u32` can count.
    TooManyEntries,
    /// A content, plain or compressed, is longer than a `u32` can state.
    ContentTooLarge,
    /// The compression level is out of the compressor's range.
    UnsupportedCompression,
    /// `feed` was called after an earlier `feed` failed.
    FeedAfterError,
    /// `feed` was called more often than entries were declared.
    FeedTooMany,
}

} // verus!
