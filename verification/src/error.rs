//! The ways in which a store operation can fail.

use vstd::prelude::*;

verus! {

/// Why a store operation was refused. Every failure ends the operation that
/// raised it; nothing is retried and no partial result is handed out.
#[derive(Clone, Copy, Debug, PartialEq, Eq, Structural)]
pub enum StoreError {
    /// Key material whose length is not exactly 32 bytes.
    InvalidKeyLength,
    /// An envelope too short to hold even its nonce.
    EnvelopeTooShort,
    /// The cipher refused the envelope: wrong key, or altered, truncated or
    /// extended bytes.
    AuthenticationFailed,
    /// The envelope was authentic but its plaintext is not an encoded memory.
    MalformedPayload,
    /// The encoded memory is longer than the cipher can seal in one message.
    PayloadTooLarge,
    /// The text offered as a recovery token is not one.
    InvalidRecoveryToken,
}

impl StoreError {
    /// A short sentence for the person at the keyboard.
    pub fn message(&self) -> (text: &'static str)
        ensures
            text@ == self.message_text(),
    {
        match self {
            StoreError::InvalidKeyLength => "invalid master key length",
            StoreError::EnvelopeTooShort => "encrypted data too short",
            StoreError::AuthenticationFailed => "authentication failed",
            StoreError::MalformedPayload => "malformed payload",
            StoreError::PayloadTooLarge => "payload too large",
            StoreError::InvalidRecoveryToken => "invalid recovery token",
        }
    }

    /// The sentence that [`StoreError::message`] returns.
    pub open spec fn message_text(&self) -> Seq<char> {
        match self {
            StoreError::InvalidKeyLength => "invalid master key length"@,
            StoreError::EnvelopeTooShort => "encrypted data too short"@,
            StoreError::AuthenticationFailed => "authentication failed"@,
            StoreError::MalformedPayload => "malformed payload"@,
            StoreError::PayloadTooLarge => "payload too large"@,
            StoreError::InvalidRecoveryToken => "invalid recovery token"@,
        }
    }
}

} // verus!
