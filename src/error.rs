use vstd::prelude::*;

verus! {

/// The kinds of failure the library reports.
#[derive(Clone, Copy, Debug, PartialEq, Eq, Structural)]
pub enum HwpError {
    /// The file header does not carry the format's signature.
    NotHwpFile,
    /// The document uses a feature this library refuses, such as a password.
    UnsupportedVersion,
    /// A structural violation: a truncated record, no sections, a bad extension, too little text.
    InvalidFormat,
    /// A recognised structure whose contents are inconsistent.
    ParseError,
    /// A failure of the underlying storage.
    Io,
    /// A required stream is absent.
    StreamNotFound,
    /// Distribution-key derivation or decryption failed.
    CryptoError,
}

} // verus!
