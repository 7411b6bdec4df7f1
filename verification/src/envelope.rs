//! The envelope: a nonce, then the sealed bytes of an encoded memory.
//!
//! ```text
//! envelope := nonce sealed         nonce: 12 bytes
//! sealed   := ciphertext tag       tag: 16 bytes
//! ```
//!
//! An envelope is at least 28 bytes long.

use vstd::prelude::*;
use vstd::slice::slice_subrange;
use crate::cipher::{aead_open, aead_seal, open, random_bytes, seal, NONCE_LEN, PLAINTEXT_LIMIT, TAG_LEN};
use crate::codec;
use crate::error::StoreError;
use crate::key::Key;
use crate::memory::{Memory, MemoryView};
use crate::wire;

verus! {

/// The envelope that holds `plaintext` sealed under `key` with `nonce`, where
/// the cipher seals it.
pub open spec fn sealed_envelope(plaintext: Seq<u8>, key: Seq<u8>, nonce: Seq<u8>) -> Option<
    Seq<u8>,
> {
    match aead_seal(key, nonce, plaintext) {
        Some(sealed) => Some(nonce + sealed),
        None => None,
    }
}

/// What comes of opening `envelope` under `key`: the plaintext, or the
/// reason why there is none. An envelope shorter than a nonce is refused
/// before the cipher is asked.
pub open spec fn opened_envelope(envelope: Seq<u8>, key: Seq<u8>) -> Result<Seq<u8>, StoreError> {
    if envelope.len() < NONCE_LEN {
        Err(StoreError::EnvelopeTooShort)
    } else {
        match aead_open(key, envelope.take(NONCE_LEN as int), envelope.skip(NONCE_LEN as int)) {
            Some(plaintext) => Ok(plaintext),
            None => Err(StoreError::AuthenticationFailed),
        }
    }
}

/// The memory that a plaintext stands for, or the reason why it stands for
/// none.
pub open spec fn decoded_payload(plaintext: Seq<u8>) -> Result<MemoryView, StoreError> {
    match wire::decode_memory(plaintext) {
        Some(memory) => Ok(memory),
        None => Err(StoreError::MalformedPayload),
    }
}

/// What comes of decrypting `envelope` under `key`: the memory it holds, or
/// the reason why it gives none.
pub open spec fn decrypted(envelope: Seq<u8>, key: Seq<u8>) -> Result<MemoryView, StoreError> {
    match opened_envelope(envelope, key) {
        Ok(plaintext) => decoded_payload(plaintext),
        Err(reason) => Err(reason),
    }
}

/// The outcome of an operation that gives a memory, with the memory seen as
/// what it holds.
pub open spec fn outcome_view(outcome: Result<Memory, StoreError>) -> Result<MemoryView, StoreError> {
    match outcome {
        Ok(memory) => Ok(memory@),
        Err(reason) => Err(reason),
    }
}

/// The outcome of an operation that gives bytes, with the bytes seen as a
/// sequence.
pub open spec fn bytes_view(outcome: Result<Vec<u8>, StoreError>) -> Result<Seq<u8>, StoreError> {
    match outcome {
        Ok(bytes) => Ok(bytes@),
        Err(reason) => Err(reason),
    }
}

/// Decryption undoes encryption: an envelope that the cipher opens under
/// `key` to the encoding of `memory` decrypts under `key` to `memory`.
pub proof fn lemma_decrypt_sealed(memory: MemoryView, key: Seq<u8>, envelope: Seq<u8>)
    requires
        memory.wf(),
        wire::memory_fits(memory),
        opened_envelope(envelope, key) == Ok::<Seq<u8>, StoreError>(wire::encode_memory(memory)),
    ensures
        decrypted(envelope, key) == Ok::<MemoryView, StoreError>(memory),
{
    wire::lemma_decode_encode(memory, Seq::empty());
    assert(wire::encode_memory(memory) + Seq::<u8>::empty() =~= wire::encode_memory(memory));
}

/// What a memory is sealed to depends on its notes, its history, the key and
/// the nonce alone: two well-formed memories with the same notes under the
/// same keys and the same history are sealed to the same envelope, however
/// the notes came in.
pub proof fn lemma_sealing_follows_content(
    a: MemoryView,
    b: MemoryView,
    key: Seq<u8>,
    nonce: Seq<u8>,
)
    requires
        a.wf(),
        b.wf(),
        a.items() == b.items(),
        a.history == b.history,
    ensures
        sealed_envelope(wire::encode_memory(a), key, nonce) == sealed_envelope(
            wire::encode_memory(b),
            key,
            nonce,
        ),
{
    wire::lemma_encoding_follows_content(a, b);
}

/// An envelope shorter than a nonce is refused as too short, whatever the
/// key.
pub proof fn lemma_short_envelope_refused(envelope: Seq<u8>, key: Seq<u8>)
    requires
        envelope.len() < NONCE_LEN,
    ensures
        decrypted(envelope, key) == Err::<MemoryView, StoreError>(StoreError::EnvelopeTooShort),
{
}

/// Decryption fails for want of authenticity exactly where the envelope is
/// long enough to hold a nonce and the cipher does not verify the rest under
/// that nonce and `key`. In particular, no memory ever comes out of an
/// envelope that the cipher has not verified.
pub proof fn lemma_unverified_is_refused(envelope: Seq<u8>, key: Seq<u8>)
    ensures
        decrypted(envelope, key) == Err::<MemoryView, StoreError>(StoreError::AuthenticationFailed)
            <==> envelope.len() >= NONCE_LEN && aead_open(
            key,
            envelope.take(NONCE_LEN as int),
            envelope.skip(NONCE_LEN as int),
        ) is None,
        decrypted(envelope, key) is Ok ==> envelope.len() >= NONCE_LEN && aead_open(
            key,
            envelope.take(NONCE_LEN as int),
            envelope.skip(NONCE_LEN as int),
        ) is Some,
{
}

/// Seals `plaintext` under `key` with the given nonce and puts the nonce in
/// front. A nonce must never serve twice under one key: callers other than
/// [`encrypt_memory`] have to see to that themselves.
///
/// The envelope opens under the same key to the same plaintext.
pub fn seal_payload(plaintext: &[u8], key: &Key, nonce: &[u8; 12]) -> (envelope: Result<
    Vec<u8>,
    StoreError,
>)
    ensures
        envelope is Ok <==> plaintext@.len() < PLAINTEXT_LIMIT,
        match envelope {
            Ok(bytes) => {
                &&& sealed_envelope(plaintext@, key@, nonce@) == Some(bytes@)
                &&& bytes@.len() == NONCE_LEN + plaintext@.len() + TAG_LEN
                &&& opened_envelope(bytes@, key@) == Ok::<Seq<u8>, StoreError>(plaintext@)
            },
            Err(reason) => reason == StoreError::PayloadTooLarge,
        },
{
    if plaintext.len() as u64 >= PLAINTEXT_LIMIT {
        return Err(StoreError::PayloadTooLarge);
    }
    match seal(key.as_bytes(), nonce, plaintext) {
        Some(sealed) => {
            let mut bytes: Vec<u8> = Vec::new();
            let mut i: usize = 0;
            while i < NONCE_LEN
                invariant
                    i <= NONCE_LEN,
                    bytes@ == nonce@.take(i as int),
                decreases NONCE_LEN - i,
            {
                bytes.push(nonce[i]);
                i += 1;
            }
            bytes.extend_from_slice(sealed.as_slice());
            assert(bytes@.take(NONCE_LEN as int) =~= nonce@);
            assert(bytes@.skip(NONCE_LEN as int) =~= sealed@);
            Ok(bytes)
        },
        None => Err(StoreError::PayloadTooLarge),
    }
}

/// Opens an envelope: splits off the nonce and has the cipher verify and
/// decrypt the rest. An envelope shorter than 12 bytes is refused as too
/// short without the cipher being asked; every other refusal is the
/// cipher's, for a wrong key or for bytes that were altered, cut or added.
/// No plaintext is handed out unless the tag verifies.
pub fn open_payload(envelope: &[u8], key: &Key) -> (plaintext: Result<Vec<u8>, StoreError>)
    ensures
        bytes_view(plaintext) == opened_envelope(envelope@, key@),
        envelope@.len() < NONCE_LEN + TAG_LEN ==> plaintext is Err,
        plaintext matches Ok(bytes) ==> bytes@.len() + NONCE_LEN + TAG_LEN == envelope@.len(),
{
    if envelope.len() < NONCE_LEN {
        return Err(StoreError::EnvelopeTooShort);
    }
    let mut nonce = [0u8; 12];
    let mut i: usize = 0;
    while i < NONCE_LEN
        invariant
            i <= NONCE_LEN <= envelope@.len(),
            forall|k: int| 0 <= k < i ==> nonce@[k] == envelope@[k],
        decreases NONCE_LEN - i,
    {
        nonce[i] = envelope[i];
        i += 1;
    }
    assert(nonce@ =~= envelope@.take(NONCE_LEN as int));
    let sealed = slice_subrange(envelope, NONCE_LEN, envelope.len());
    match open(key.as_bytes(), &nonce, sealed) {
        Some(bytes) => Ok(bytes),
        None => Err(StoreError::AuthenticationFailed),
    }
}

/// Reads a decrypted plaintext as a memory.
pub fn decode_payload(plaintext: &[u8]) -> (memory: Result<Memory, StoreError>)
    ensures
        outcome_view(memory) == decoded_payload(plaintext@),
        memory matches Ok(m) ==> m@.wf(),
{
    match codec::decode_memory(plaintext) {
        Some(memory) => {
            memory.proves_wf();
            Ok(memory)
        },
        None => Err(StoreError::MalformedPayload),
    }
}

/// Seals `memory` under `key` with the given nonce. A nonce must never serve
/// twice under one key: callers other than [`encrypt_memory`] have to see to
/// that themselves.
///
/// The envelope decrypts under the same key to the same memory.
pub fn seal_memory(memory: &Memory, key: &Key, nonce: &[u8; 12]) -> (envelope: Result<
    Vec<u8>,
    StoreError,
>)
    ensures
        envelope is Ok <==> wire::encode_memory(memory@).len() < PLAINTEXT_LIMIT,
        match envelope {
            Ok(bytes) => {
                &&& sealed_envelope(wire::encode_memory(memory@), key@, nonce@) == Some(bytes@)
                &&& bytes@.len() == NONCE_LEN + wire::encode_memory(memory@).len() + TAG_LEN
                &&& decrypted(bytes@, key@) == Ok::<MemoryView, StoreError>(memory@)
            },
            Err(reason) => reason == StoreError::PayloadTooLarge,
        },
{
    memory.proves_wf();
    let plaintext = codec::encode_memory(memory);
    let envelope = seal_payload(plaintext.as_slice(), key, nonce);
    proof {
        if envelope is Ok {
            lemma_decrypt_sealed(memory@, key@, envelope->Ok_0@);
        }
    }
    envelope
}

/// Encrypts `memory` under `key`: encodes it, draws a fresh random nonce and
/// seals the encoding with no associated data. The envelope is the nonce
/// followed by ciphertext and tag. The memory is not changed.
///
/// Whatever nonce was drawn, the envelope decrypts under the same key to the
/// same memory.
pub fn encrypt_memory(memory: &Memory, key: &Key) -> (envelope: Result<Vec<u8>, StoreError>)
    ensures
        envelope is Ok <==> wire::encode_memory(memory@).len() < PLAINTEXT_LIMIT,
        match envelope {
            Ok(bytes) => {
                &&& bytes@.len() == NONCE_LEN + wire::encode_memory(memory@).len() + TAG_LEN
                &&& sealed_envelope(
                    wire::encode_memory(memory@),
                    key@,
                    bytes@.take(NONCE_LEN as int),
                ) == Some(bytes@)
                &&& decrypted(bytes@, key@) == Ok::<MemoryView, StoreError>(memory@)
            },
            Err(reason) => reason == StoreError::PayloadTooLarge,
        },
{
    let nonce: [u8; 12] = random_bytes::<12>();
    let envelope = seal_memory(memory, key, &nonce);
    proof {
        if envelope is Ok {
            let sealed = aead_seal(key@, nonce@, wire::encode_memory(memory@))->Some_0;
            assert((nonce@ + sealed).take(NONCE_LEN as int) =~= nonce@);
        }
    }
    envelope
}

/// Decrypts an envelope under `key`.
///
/// - Fewer than 12 bytes: `EnvelopeTooShort`, and the cipher is not asked.
/// - The tag does not verify (wrong key, altered, cut or lengthened bytes;
///   anything from 12 to 27 bytes): `AuthenticationFailed`.
/// - The tag verifies but the plaintext is no encoded memory:
///   `MalformedPayload`.
/// - Otherwise the memory that the plaintext stands for.
pub fn decrypt_memory(envelope: &[u8], key: &Key) -> (memory: Result<Memory, StoreError>)
    ensures
        outcome_view(memory) == decrypted(envelope@, key@),
        envelope@.len() < NONCE_LEN ==> memory == Err::<Memory, StoreError>(
            StoreError::EnvelopeTooShort,
        ),
        NONCE_LEN <= envelope@.len() < NONCE_LEN + TAG_LEN ==> memory == Err::<Memory, StoreError>(
            StoreError::AuthenticationFailed,
        ),
        memory matches Ok(m) ==> m@.wf(),
{
    match open_payload(envelope, key) {
        Ok(plaintext) => decode_payload(plaintext.as_slice()),
        Err(reason) => Err(reason),
    }
}

} // verus!
