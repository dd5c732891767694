//! The compression engine behind the compressed record encoding.
//!
//! Large values are stored as a self-contained compression frame. The engine
//! is external; its behaviour enters the proofs only through `zstd_unframe`,
//! the (deterministic) decoding of a frame back to the bytes it holds.

use vstd::prelude::*;

use crate::result::KVError;

verus! {

/// What decompressing a byte sequence yields: the decompressed bytes when the
/// sequence is a well-formed frame, nothing otherwise. Deterministic decoding
/// of the frame format; the codec's contracts are stated over this name.
pub uninterp spec fn zstd_unframe(frame: Seq<u8>) -> Option<Seq<u8>>;

/// Relies on zstd::stream::encode_all: its result is a self-contained frame
/// in the zstd format which decode_all inverts to exactly the input bytes.
#[verifier::external_body]
pub(crate) fn zstd_compress(data: &Vec<u8>) -> (r: Option<Vec<u8>>)
    ensures
        r is Some ==> zstd_unframe(r.unwrap()@) == Some(data@),
{
    match zstd::stream::encode_all(&data[..], 0) {
        Ok(frame) => Some(frame),
        Err(_) => None,
    }
}

/// Relies on zstd::stream::decode_all: decompression is a function of the
/// frame bytes alone; it succeeds exactly on well-formed frames and returns
/// the bytes the frame holds.
#[verifier::external_body]
pub(crate) fn zstd_decompress(frame: &Vec<u8>) -> (r: Result<Vec<u8>, KVError>)
    ensures
        r is Ok ==> zstd_unframe(frame@) == Some(r.unwrap()@),
        r is Err ==> zstd_unframe(frame@) is None,
        r matches Err(e) ==> e == KVError::InvalidData,
{
    match zstd::stream::decode_all(&frame[..]) {
        Ok(data) => Ok(data),
        Err(_) => Err(KVError::InvalidData),
    }
}

} // verus!
