use vstd::prelude::*;

verus! {

/// Failure of a cryptographic primitive.
#[derive(Debug, Clone, PartialEq, Eq)]
pub enum CryptoError {
    /// A key of the wrong length was supplied to a cipher constructor.
    InvalidKeyLength,
    /// An initialization vector of the wrong length was supplied.
    InvalidIvLength,
    /// Block padding was found invalid while decrypting.
    InvalidPadding,
    /// The Argon2 key derivation rejected its parameters or input.
    Argon2,
    /// A stream cipher was asked for more keystream than it can supply.
    KeystreamExhausted,
}

/// Structural violation of the database document.
#[derive(Debug, Clone, PartialEq, Eq)]
pub enum DatabaseIntegrityError {
    /// A cryptographic failure surfaced while working on the document.
    Crypto(CryptoError),
    /// Text that should have been Base64 could not be decoded.
    Base64,
    /// An element appeared in a position where no recovery is possible.
    UnexpectedElement,
    /// An element that must carry text carried a non-text child.
    MissingText,
    /// A timestamp could not be parsed in either accepted dialect.
    Timestamp,
    /// The raw bytes could not be parsed as an XML document.
    XmlParse,
    /// The document could not be emitted as XML bytes.
    XmlWrite,
}

impl DatabaseIntegrityError {
    /// Wraps a primitive failure as a document-level failure.
    pub fn from_crypto(e: CryptoError) -> (r: DatabaseIntegrityError)
        ensures
            r == DatabaseIntegrityError::Crypto(e),
    {
        DatabaseIntegrityError::Crypto(e)
    }
}

} // verus!
