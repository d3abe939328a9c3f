//! Classical compression of the residue with zstd.

use vstd::prelude::*;
use vstd::slice::slice_to_vec;

verus! {

#[verifier::external_type_specification]
#[verifier::external_body]
pub struct ExIoError(std::io::Error);

/// The zstd frame that `zstd::stream::encode_all` produces for `data` at
/// `level`, when it produces one.
pub uninterp spec fn zstd_frame(data: Seq<u8>, level: i32) -> Option<Seq<u8>>;

/// The content that `zstd::stream::decode_all` recovers from `frame`, when it
/// recovers one.
pub uninterp spec fn zstd_content(frame: Seq<u8>) -> Option<Seq<u8>>;

/// Calls `zstd::stream::encode_all`. Claimed: a successful result is the
/// frame for `data` at `level`, a function of the two alone. When it fails
/// (an I/O or allocation error inside zstd) nothing is claimed.
#[verifier::external_body]
fn zstd_encode_all(data: &[u8], level: i32) -> (r: Result<Vec<u8>, std::io::Error>)
    ensures
        r matches Ok(v) ==> zstd_frame(data@, level) == Some(v@),
{
    zstd::stream::encode_all(data, level)
}

/// Calls `zstd::stream::decode_all`. Claimed: a successful result is the
/// content of the frame, a function of `data` alone; and zstd is lossless, so
/// when a frame that `encode_all` produced is decoded, the result is exactly
/// the data it was made from. Which inputs fail is not claimed: not even a
/// genuine frame is promised to decode, since zstd reports a failure of its
/// own (such as running out of memory for the window) as an error.
#[verifier::external_body]
fn zstd_decode_all(data: &[u8]) -> (r: Result<Vec<u8>, std::io::Error>)
    ensures
        r matches Ok(v) ==> zstd_content(data@) == Some(v@),
        r matches Ok(v) ==> forall|x: Seq<u8>, level: i32| #[trigger] zstd_frame(x, level) == Some(data@) ==> v@ == x,
{
    zstd::stream::decode_all(data)
}

/// Compresses the residue at `level`; when zstd fails, the residue is kept
/// as it is.
pub fn compress_residual(data: &[u8], level: i32) -> (r: Vec<u8>)
    ensures
        zstd_frame(data@, level) == Some(r@) || r@ == data@,
{
    match zstd_encode_all(data, level) {
        Ok(v) => v,
        Err(_) => slice_to_vec(data),
    }
}

/// Decompresses a residue; input that zstd cannot decode is returned as it
/// is. A frame made by `compress_residual` comes back as the data it was made
/// from, unless zstd itself fails.
pub fn decompress_residual(data: &[u8]) -> (r: Vec<u8>)
    ensures
        zstd_content(data@) == Some(r@) || r@ == data@,
        forall|x: Seq<u8>, level: i32| #[trigger] zstd_frame(x, level) == Some(data@) ==> (r@ == x || r@ == data@),
{
    match zstd_decode_all(data) {
        Ok(v) => v,
        Err(_) => slice_to_vec(data),
    }
}

} // verus!
