use vstd::prelude::*;

verus! {

/// Errors raised while encoding or decoding a package.
///
/// Decoding a wire message or a JSON field list can fail for any of the
/// reasons below; encoding fails only when the signature is missing.
#[derive(Debug, Clone, Copy, PartialEq, Eq, Structural)]
pub enum CodecError {
    /// Wrong list arity, wrong element shape, or text that is not UTF-8.
    MalformedStructure,
    /// The status byte is outside the known range.
    UnknownStatus,
    /// The maintainer key is not exactly 32 bytes.
    BadKeyLength,
    /// The signature is not exactly 64 bytes.
    BadSigLength,
    /// The archive URL does not parse as an absolute URL.
    BadUrl,
    /// A package without a signature was handed to the encoder, or the
    /// signature field is absent from a JSON field list.
    MissingSignature,
    /// A JSON field appears twice.
    DuplicateField,
}

/// Transport-level errors surfaced by a sync pass.
#[derive(Debug, Clone, Copy, PartialEq, Eq, Structural)]
pub enum BlockchainError {
    /// The connection to the ledger could not be configured.
    ConnectionConfig,
    /// The connection to the ledger could not be established.
    ConnectionFailure,
    /// The subscription yielded no package data.
    NoPackagesData,
}

/// Raised when a ledger operation runs before a ledger was selected.
#[derive(Debug, Clone, Copy, PartialEq, Eq, Structural)]
pub enum SelectionError {
    NoActiveLedger,
}

} // verus!
