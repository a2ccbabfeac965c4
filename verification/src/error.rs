//! The failure taxonomy shared by every layer of the pipeline.

use vstd::prelude::*;

verus! {

/// Every way an operation of the data plane can fail.
///
/// A layer hands the failure of the layer below to its caller unchanged, so a
/// single flat enumeration serves the whole pipeline.
#[derive(Clone, Copy, Debug, PartialEq, Eq, Structural)]
pub enum Error {
    /// The underlying filesystem or network failed.
    Io,
    /// A backend holds nothing at the given location.
    StorageNotFound,
    /// A block is larger than the backend's per-upload ceiling.
    StorageLimit,
    /// A backend could not be reached, or timed out.
    StorageNetwork,
    /// The backend cannot perform the operation at all.
    StorageUnsupported,
    /// No registered backend owns the location's platform.
    StorageRouteMissing,
    /// An artifact does not have the shape the codec expects.
    CodecFormat,
    /// An artifact ends before the data it announces.
    CodecTruncated,
    /// A frame was recognised but its payload could not be recovered.
    CodecDecode,
    /// The codec exists by name only.
    CodecUnimplemented,
    /// Fewer shards are present than the code needs.
    ErasureInsufficient,
    /// The erasure code rejected its parameters or its input.
    ErasureInternal,
    /// A key could not be derived from the password and salt.
    CryptoKdf,
    /// A ciphertext failed authentication.
    CryptoIntegrity,
    /// The index refused or failed an operation.
    Index,
    /// The index holds no file under the given path.
    FileNotFound,
    /// The index holds no block under the given fingerprint.
    BlockNotFound,
    /// A string is not the hex rendering of a fingerprint.
    InvalidHash,
    /// A parameter is outside the range the component accepts.
    Config,
    /// Anything else.
    Other,
}

impl Error {
    /// The stable, operator-facing name of the failure.
    pub open spec fn spec_name(self) -> Seq<char> {
        match self {
            Error::Io => "io"@,
            Error::StorageNotFound => "storage-not-found"@,
            Error::StorageLimit => "storage-limit"@,
            Error::StorageNetwork => "storage-network"@,
            Error::StorageUnsupported => "storage-unsupported"@,
            Error::StorageRouteMissing => "storage-route-missing"@,
            Error::CodecFormat => "codec-format"@,
            Error::CodecTruncated => "codec-truncated"@,
            Error::CodecDecode => "codec-decode"@,
            Error::CodecUnimplemented => "codec-unimplemented"@,
            Error::ErasureInsufficient => "erasure-insufficient"@,
            Error::ErasureInternal => "erasure-internal"@,
            Error::CryptoKdf => "crypto-kdf"@,
            Error::CryptoIntegrity => "crypto-integrity"@,
            Error::Index => "index"@,
            Error::FileNotFound => "file-not-found"@,
            Error::BlockNotFound => "block-not-found"@,
            Error::InvalidHash => "invalid-hash"@,
            Error::Config => "config"@,
            Error::Other => "other"@,
        }
    }

    /// Returns the operator-facing name of the failure.
    pub fn name(&self) -> (s: &'static str)
        ensures
            s@ == self.spec_name(),
    {
        match self {
            Error::Io => "io",
            Error::StorageNotFound => "storage-not-found",
            Error::StorageLimit => "storage-limit",
            Error::StorageNetwork => "storage-network",
            Error::StorageUnsupported => "storage-unsupported",
            Error::StorageRouteMissing => "storage-route-missing",
            Error::CodecFormat => "codec-format",
            Error::CodecTruncated => "codec-truncated",
            Error::CodecDecode => "codec-decode",
            Error::CodecUnimplemented => "codec-unimplemented",
            Error::ErasureInsufficient => "erasure-insufficient",
            Error::ErasureInternal => "erasure-internal",
            Error::CryptoKdf => "crypto-kdf",
            Error::CryptoIntegrity => "crypto-integrity",
            Error::Index => "index",
            Error::FileNotFound => "file-not-found",
            Error::BlockNotFound => "block-not-found",
            Error::InvalidHash => "invalid-hash",
            Error::Config => "config",
            Error::Other => "other",
        }
    }
}

} // verus!
