//! Serialization of batches and validation of batch images read back.
use vstd::prelude::*;

use crate::checksum::digest;
use crate::checksum::fnv_digest;
use crate::compression::Compression;
use crate::compression::compress_spec;
use crate::compression::decomp_ok;
use crate::compression::decompress_with;
use crate::error::SwapVecError;

verus! {

/// What `bincode::serialize` returns for a batch of elements: a function
/// of the elements alone.
pub uninterp spec fn encoding_of(v: Seq<u64>) -> Seq<u8>;

/// The exact bytes stored on disk for a batch of elements under the given
/// compression selector.
pub open spec fn payload_of(batch: Seq<u64>, c: Option<Compression>) -> Seq<u8> {
    compress_spec(c, encoding_of(batch))
}

/// One entry of the in-memory ledger: the digest and byte length recorded
/// when a batch was written.  The payload itself lives only in the file.
pub struct BatchInfo {
    /// 64-bit digest of the exact bytes written for the batch.
    pub hash: u64,
    /// Number of bytes written for the batch.
    pub bytes: usize,
}

/// `info` correctly describes `bytes` as a stored batch image.
pub open spec fn info_matches(info: BatchInfo, bytes: Seq<u8>) -> bool {
    info.hash == fnv_digest(bytes) && info.bytes == bytes.len()
}

/// Corruption detection: flipping any single byte of a batch image makes
/// it mismatch its ledger entry, so `decode_batch` rejects it with
/// `WrongChecksum` and returns no value from the batch.
pub proof fn lemma_corruption_detected(bytes: Seq<u8>, info: BatchInfo, i: int, b: u8)
    requires
        info_matches(info, bytes),
        0 <= i < bytes.len(),
        b != bytes[i],
    ensures
        !info_matches(info, bytes.update(i, b)),
{
    crate::checksum::lemma_digest_detects_flip(bytes, i, b);
}

/// Relies on `bincode::serialize`: deterministic encoding of a sequence
/// of elements into bytes.  Encoding 64-bit integers with the fix-int
/// configuration into a byte vector cannot fail, so success is promised.
#[verifier::external_body]
pub(crate) fn serialize_batch(v: &Vec<u64>) -> (r: Result<Vec<u8>, SwapVecError>)
    ensures
        r is Ok,
        r is Ok ==> r->Ok_0@ == encoding_of(v@),
{
    bincode::serialize(v).map_err(|e| SwapVecError::SerializationFailed(*e))
}

/// Relies on `bincode::deserialize`: inverts `bincode::serialize`, and
/// rejects bytes it cannot decode.
#[verifier::external_body]
pub(crate) fn deserialize_batch(bytes: &Vec<u8>) -> (r: Result<Vec<u64>, SwapVecError>)
    ensures
        forall|v: Seq<u64>| bytes@ == #[trigger] encoding_of(v) ==> r is Ok && r->Ok_0@ == v,
        r is Err ==> r->Err_0 is SerializationFailed,
{
    bincode::deserialize(bytes.as_slice()).map_err(|e| SwapVecError::SerializationFailed(*e))
}

/// Validates a batch image read back from the file against its ledger
/// entry, then decompresses and decodes it.
///
/// A digest or length mismatch is reported as `WrongChecksum` and nothing
/// of the batch is returned; an intact image that was produced by the
/// write path decodes to exactly the elements that were flushed.
pub fn decode_batch(bytes: &Vec<u8>, info: &BatchInfo, c: &Option<Compression>) -> (r: Result<
    Vec<u64>,
    SwapVecError,
>)
    ensures
        !info_matches(*info, bytes@) ==> (r matches Err(SwapVecError::WrongChecksum)),
        r is Ok ==> info_matches(*info, bytes@),
        forall|batch: Seq<u64>|
            info_matches(*info, bytes@) && decomp_ok(*c, encoding_of(batch)) && bytes@
                == payload_of(batch, *c) ==> r is Ok && r->Ok_0@ == batch,
        r is Err ==> (r->Err_0 is WrongChecksum || r->Err_0 is SerializationFailed),
{
    if bytes.len() != info.bytes {
        return Err(SwapVecError::WrongChecksum);
    }
    if digest(bytes) != info.hash {
        return Err(SwapVecError::WrongChecksum);
    }
    let raw = match decompress_with(c, bytes) {
        Ok(v) => v,
        Err(e) => {
            return Err(e);
        },
    };
    deserialize_batch(&raw)
}

} // verus!
