//! The master key: exactly 32 bytes of symmetric key material.

use vstd::prelude::*;
use crate::cipher::random_bytes;
use crate::error::StoreError;

verus! {

/// Number of bytes in a master key.
pub const KEY_LEN: usize = 32;

/// A master key. The length is part of the type, so a key can never be used
/// truncated or padded. A key does not print itself.
#[derive(Clone, Copy)]
pub struct Key {
    bytes: [u8; 32],
}

impl View for Key {
    type V = Seq<u8>;

    closed spec fn view(&self) -> Seq<u8> {
        self.bytes@
    }
}

impl Key {
    /// Every key is 32 bytes long.
    pub proof fn lemma_len(&self)
        ensures
            self@.len() == KEY_LEN,
    {
    }

    /// Wraps 32 bytes as a key.
    pub fn from_bytes(bytes: [u8; 32]) -> (key: Key)
        ensures
            key@ == bytes@,
    {
        Key { bytes }
    }

    /// The key material.
    pub fn as_bytes(&self) -> (bytes: &[u8; 32])
        ensures
            bytes@ == self@,
    {
        &self.bytes
    }
}

/// A new key: 32 bytes drawn from a cryptographically secure generator that
/// is seeded afresh from the operating system at every call.
pub fn generate_key() -> (key: Key)
    ensures
        key@.len() == KEY_LEN,
{
    Key { bytes: random_bytes::<32>() }
}

/// Accepts stored key material if and only if it is exactly 32 bytes long.
/// Nothing is truncated, padded or hashed to fit.
pub fn load_master_key(stored: &[u8]) -> (result: Result<Key, StoreError>)
    ensures
        stored@.len() == KEY_LEN ==> result is Ok && result->Ok_0@ == stored@,
        stored@.len() != KEY_LEN ==> result == Err::<Key, StoreError>(StoreError::InvalidKeyLength),
{
    if stored.len() != KEY_LEN {
        return Err(StoreError::InvalidKeyLength);
    }
    let mut bytes = [0u8; 32];
    let mut i: usize = 0;
    while i < KEY_LEN
        invariant
            i <= KEY_LEN,
            stored@.len() == KEY_LEN,
            forall|j: int| 0 <= j < i ==> bytes@[j] == stored@[j],
        decreases KEY_LEN - i,
    {
        bytes[i] = stored[i];
        i += 1;
    }
    Ok(Key { bytes })
}

} // verus!
