//! A hybrid memory/disk append-only buffer.
//!
//! Values are held in memory until configurable thresholds are crossed,
//! after which the oldest elements are drained in fixed-size batches to an
//! anonymous temporary file, each batch serialized, optionally compressed,
//! and checksummed.  Once writing is done, the buffer is consumed into a
//! lazy, one-shot replay that yields the values back in insertion order,
//! verifying every batch's integrity on the way.
//!
//! Elements are 64-bit integers.  The integrity digest is a 64-bit FNV-1a
//! hash defined and computed in this crate, so its corruption-detection
//! power is proved rather than assumed.
#![verifier::loop_isolation(false)]

mod checksum;
mod codec;
mod compression;
mod error;
mod storage;
mod swapvec;
mod swapveciter;

pub use checksum::digest;
pub use checksum::fnv_digest;
pub use checksum::lemma_digest_detects_flip;
pub use codec::BatchInfo;
pub use codec::decode_batch;
pub use codec::lemma_corruption_detected;
pub use compression::Compression;
pub use compression::CompressionLevel;
pub use compression::compress_with;
pub use compression::decompress_with;
pub use error::SwapVecError;
pub use swapvec::SwapVec;
pub use swapvec::SwapVecConfig;
pub use swapvec::insert_all;
pub use swapvec::insert_failed;
pub use swapvec::insert_step;
pub use swapvec::should_flush;
pub use swapvec::within_memory_budget;
pub use swapveciter::SwapVecIter;
