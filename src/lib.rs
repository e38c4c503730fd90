//! Content attestation: fixed-size block digests of a byte stream, folded
//! level by level into a single root, with range verification against the
//! leaf level.

pub mod digest;

pub use digest::{
    assemble_digests, block_digest, check_chunk_size, generate_for_bytes, InvalidChunkSizeError,
    DIGEST_LEN,
};

pub mod attestor;

pub use attestor::{BufferOverflowError, FinalizedError, Terrapin, BUFFER_CAPACITY};

pub mod range;

pub use range::{aligned_range, verify_bytes, RangeVerifier, VerifyError};

pub mod levels;

pub use levels::attestation_levels;

pub mod laws;
