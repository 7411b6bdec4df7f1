//! The outside world of the store: the authenticated cipher and the source
//! of randomness. Nothing in this file is proved; the contracts say what the
//! rest of the library takes on trust.

use vstd::prelude::*;
use chacha20poly1305::aead::Aead;
use chacha20poly1305::{ChaCha20Poly1305, KeyInit};
use rand::{RngCore, SeedableRng};
use rand_chacha::ChaCha20Rng;

verus! {

/// Length of a nonce in bytes.
pub const NONCE_LEN: usize = 12;

/// Length of the authentication tag in bytes.
pub const TAG_LEN: usize = 16;

/// The cipher seals plaintexts shorter than this many bytes, and no others.
pub const PLAINTEXT_LIMIT: u64 = 274_877_906_880;

/// What ChaCha20-Poly1305 makes of `plaintext` under `key` and `nonce`, with
/// no associated data: the ciphertext followed by the tag. There is no result
/// where the cipher refuses the plaintext.
pub uninterp spec fn aead_seal(key: Seq<u8>, nonce: Seq<u8>, plaintext: Seq<u8>) -> Option<Seq<u8>>;

/// What ChaCha20-Poly1305 recovers from `sealed` (ciphertext followed by tag)
/// under `key` and `nonce`, with no associated data. There is no result where
/// the tag does not verify.
pub uninterp spec fn aead_open(key: Seq<u8>, nonce: Seq<u8>, sealed: Seq<u8>) -> Option<Seq<u8>>;

/// `ChaCha20Poly1305::encrypt` of the crate chacha20poly1305 (the `Aead`
/// trait), on a cipher made with `ChaCha20Poly1305::new`.
///
/// Taken on trust: the result is a function of key, nonce and plaintext; a
/// plaintext under the cipher's length limit is sealed; the sealed bytes are
/// 16 longer than the plaintext; and opening them under the same key and
/// nonce gives the plaintext back.
#[verifier::external_body]
pub(crate) fn seal(key: &[u8; 32], nonce: &[u8; 12], plaintext: &[u8]) -> (sealed: Option<Vec<u8>>)
    ensures
        match sealed {
            Some(bytes) => {
                &&& aead_seal(key@, nonce@, plaintext@) == Some(bytes@)
                &&& bytes@.len() == plaintext@.len() + TAG_LEN
                &&& aead_open(key@, nonce@, bytes@) == Some(plaintext@)
            },
            None => aead_seal(key@, nonce@, plaintext@) is None,
        },
        plaintext@.len() < PLAINTEXT_LIMIT ==> sealed is Some,
{
    let cipher = ChaCha20Poly1305::new(chacha20poly1305::Key::from_slice(key));
    cipher.encrypt(chacha20poly1305::Nonce::from_slice(nonce), plaintext).ok()
}

/// `ChaCha20Poly1305::decrypt` of the crate chacha20poly1305 (the `Aead`
/// trait), on a cipher made with `ChaCha20Poly1305::new`.
///
/// Taken on trust: the result is a function of key, nonce and sealed bytes;
/// fewer than 16 bytes are refused; and a plaintext that comes out is 16
/// bytes shorter than what went in.
#[verifier::external_body]
pub(crate) fn open(key: &[u8; 32], nonce: &[u8; 12], sealed: &[u8]) -> (opened: Option<Vec<u8>>)
    ensures
        match opened {
            Some(plaintext) => {
                &&& aead_open(key@, nonce@, sealed@) == Some(plaintext@)
                &&& plaintext@.len() + TAG_LEN == sealed@.len()
            },
            None => aead_open(key@, nonce@, sealed@) is None,
        },
        sealed@.len() < TAG_LEN ==> opened is None,
{
    let cipher = ChaCha20Poly1305::new(chacha20poly1305::Key::from_slice(key));
    cipher.decrypt(chacha20poly1305::Nonce::from_slice(nonce), sealed).ok()
}

/// `N` bytes from a `ChaCha20Rng` of the crate rand_chacha, freshly seeded
/// by the operating system (`SeedableRng::from_entropy`, then
/// `RngCore::fill_bytes`). Nothing is promised of the bytes.
/// `from_entropy` stops the program if the system has no entropy to give.
#[verifier::external_body]
pub(crate) fn random_bytes<const N: usize>() -> (bytes: [u8; N]) {
    let mut rng = ChaCha20Rng::from_entropy();
    let mut bytes = [0u8; N];
    rng.fill_bytes(&mut bytes);
    bytes
}

} // verus!
