//! Streaming block-cipher encryption with PKCS#7 padding under a fixed memory bound.
//!
//! A byte stream of any length is encrypted or decrypted one chunk at a time.
//! The block transform itself is supplied by the caller as a [`BlockCipher`];
//! this crate owns the bookkeeping around it: staging bytes in a buffer of fixed
//! capacity, keeping one block back until the end of the stream is known, and
//! adding, checking and removing the padding of the final block.
//!
//! Every function carries a contract over sequences of bytes, and the laws that
//! relate encryption and decryption are proved in [`laws`].

pub mod blocks;
pub mod buffer;
pub mod cipher;
pub mod codec;
pub mod crypto;
pub mod error;
pub mod laws;
pub mod model;
pub mod padding;
pub mod pipeline;
pub mod stream;

pub use buffer::ChunkBuffer;
pub use cipher::{BlockCipher, XorCipher};
pub use crypto::{Crypto, CryptoTrait};
pub use error::CryptoError;
pub use model::Mode;
pub use padding::PaddingCodec;
pub use pipeline::{Stage, StreamCipherPipeline};
pub use stream::{decrypt_stream, encrypt_stream, DEFAULT_CHUNK_SIZE};
