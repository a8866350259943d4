//! The error type of every fallible operation of the library.
use vstd::prelude::*;

verus! {

/// Why an operation was refused.
#[derive(Debug, Clone, Copy, PartialEq, Eq, Structural)]
pub enum PqError {
    /// The input to encrypt holds no bytes.
    EmptyInput,
    /// No recipient was given, or an envelope names none.
    NoRecipients,
    /// A KEM or symmetric key has the wrong length.
    InvalidKeyLength,
    /// A KEM ciphertext has the wrong length.
    InvalidCiphertextLength,
    /// A nonce has the wrong length.
    InvalidNonceLength,
    /// The plaintext is longer than AES-256-GCM can seal under one nonce.
    PlaintextTooLong,
    /// Authenticated decryption failed: wrong key, wrong nonce or tampered data.
    DecryptionFailed,
    /// No recipient block of a multi-recipient envelope opened with the key.
    NoMatchingRecipient,
    /// The bytes are shorter than an envelope header.
    TooShort,
    /// The bytes do not begin with the envelope magic.
    BadMagic,
    /// The envelope carries a version this parser does not read.
    UnsupportedVersion(u8),
    /// A field runs past the end of the bytes.
    Truncated,
    /// Bytes follow the last recipient block.
    TrailingBytes,
    /// The text is not a key file.
    NotAKeyFile,
    /// More recipients than the multi-recipient format can count.
    TooManyRecipients,
    /// The key file holds the other kind of key.
    WrongKeyType,
    /// The key file body is not an even run of hexadecimal digits.
    InvalidKeyEncoding,
}

/// The text that describes each error.
pub open spec fn message_text(e: PqError) -> Seq<char> {
    match e {
        PqError::EmptyInput => "Input file is empty"@,
        PqError::NoRecipients => "At least one recipient is required"@,
        PqError::InvalidKeyLength => "invalid key length"@,
        PqError::InvalidCiphertextLength => "invalid ciphertext length"@,
        PqError::InvalidNonceLength => "invalid nonce length"@,
        PqError::PlaintextTooLong => "plaintext too long"@,
        PqError::DecryptionFailed => "decryption failed (wrong key or tampered data)"@,
        PqError::NoMatchingRecipient => "no recipient block matches this key"@,
        PqError::TooShort => "data too short to be an envelope"@,
        PqError::BadMagic => "invalid magic header"@,
        PqError::UnsupportedVersion(_) => "unsupported envelope version"@,
        PqError::Truncated => "envelope is truncated"@,
        PqError::TrailingBytes => "trailing bytes after envelope"@,
        PqError::NotAKeyFile => "not a pqguard key file"@,
        PqError::TooManyRecipients => "too many recipients"@,
        PqError::WrongKeyType => "key file holds the wrong kind of key"@,
        PqError::InvalidKeyEncoding => "key file body is not valid hex"@,
    }
}

impl PqError {
    /// A sentence that describes the error.
    pub fn message(&self) -> (r: &'static str)
        ensures
            r@ == message_text(*self),
    {
        match self {
            PqError::EmptyInput => "Input file is empty",
            PqError::NoRecipients => "At least one recipient is required",
            PqError::InvalidKeyLength => "invalid key length",
            PqError::InvalidCiphertextLength => "invalid ciphertext length",
            PqError::InvalidNonceLength => "invalid nonce length",
            PqError::PlaintextTooLong => "plaintext too long",
            PqError::DecryptionFailed => "decryption failed (wrong key or tampered data)",
            PqError::NoMatchingRecipient => "no recipient block matches this key",
            PqError::TooShort => "data too short to be an envelope",
            PqError::BadMagic => "invalid magic header",
            PqError::UnsupportedVersion(_) => "unsupported envelope version",
            PqError::Truncated => "envelope is truncated",
            PqError::TrailingBytes => "trailing bytes after envelope",
            PqError::NotAKeyFile => "not a pqguard key file",
            PqError::TooManyRecipients => "too many recipients",
            PqError::WrongKeyType => "key file holds the wrong kind of key",
            PqError::InvalidKeyEncoding => "key file body is not valid hex",
        }
    }
}

} // verus!
