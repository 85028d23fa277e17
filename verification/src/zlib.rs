//! zlib streams (`flate2`), as the PNG `iCCP` chunk stores its profile.

use vstd::prelude::*;
use crate::metadata::opt_view;
use std::io::{Read, Write};

verus! {

/// The bytes that decompressing the zlib stream `data` yields, or `None`
/// when `data` is not a valid zlib stream. (Decompression stops at the end
/// of the stream.)
pub uninterp spec fn zlib_inflate(data: Seq<u8>) -> Option<Seq<u8>>;

/// The zlib stream that `flate2` writes for `data` at its default level (6).
pub uninterp spec fn zlib_deflate(data: Seq<u8>) -> Seq<u8>;

/// Decompresses a zlib stream: `flate2::read::ZlibDecoder::new` over `data`,
/// then `Read::read_to_end`. The result is named `zlib_inflate(data)`; an
/// I/O error of the decoder (a corrupt stream) gives `None`.
#[verifier::external_body]
pub(crate) fn zlib_decompress(data: &[u8]) -> (r: Option<Vec<u8>>)
    ensures
        opt_view(r) == zlib_inflate(data@),
{
    let mut out = Vec::new();
    match flate2::read::ZlibDecoder::new(data).read_to_end(&mut out) {
        Ok(_) => Some(out),
        Err(_) => None,
    }
}

/// Compresses `data` into a zlib stream at the default level:
/// `flate2::write::ZlibEncoder::new(Vec::new(), Compression::default())`,
/// `Write::write_all`, then `ZlibEncoder::finish`. The encoder's writes go
/// into a `Vec`, which never fails, and its compressor reports an error only
/// for a stream used after it finished, which these calls never do; so the
/// stream always comes back. It is named `zlib_deflate(data)`, and, zlib
/// being lossless, decompressing it gives back `data`.
#[verifier::external_body]
pub(crate) fn zlib_compress(data: &[u8]) -> (r: Vec<u8>)
    ensures
        r@ == zlib_deflate(data@),
        zlib_inflate(r@) == Some(data@),
{
    let mut enc = flate2::write::ZlibEncoder::new(Vec::new(), flate2::Compression::default());
    enc.write_all(data).expect("writing into a Vec");
    enc.finish().expect("finishing into a Vec")
}

} // verus!
