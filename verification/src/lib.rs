//! An encrypted note store: notes under unique keys with an undo history,
//! persisted as one envelope of authenticated encryption under a local
//! master key.
//!
//! - [`key`]: the master key, 32 bytes, loaded or freshly generated.
//! - [`note`], [`memory`]: the notes, the history, and what save, lookup,
//!   search and undo do to them.
//! - [`wire`], [`codec`]: the byte layout of a memory, its encoder and its
//!   decoder; decoding undoes encoding.
//! - [`cipher`], [`envelope`]: the cipher, taken on trust, and the envelope
//!   of nonce, ciphertext and tag around an encoded memory.
//! - [`store`]: the operations of the store; each hands back the envelope
//!   that the caller has to write.
//! - [`recovery`]: first setup, the recovery token, and recovery after the
//!   key was lost.
//! - [`input`], [`audit`], [`text`], [`timestamp`], [`error`]: what is typed
//!   in, what is logged, and the small things that the rest is made of.
//!
//! The library reads and writes no files: it is handed bytes and hands bytes
//! back.

pub mod error;
pub mod key;
pub mod text;
pub mod timestamp;
pub mod note;
pub mod memory;
pub mod wire;
pub mod codec;
pub mod cipher;
pub mod envelope;
pub mod store;
pub mod recovery;
pub mod input;
pub mod audit;
