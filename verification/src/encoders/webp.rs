//! WebP encoding with the `webp` crate (libwebp).

use vstd::prelude::*;
use crate::cli::OutputFormat;
use crate::error::ImzipError;
use super::{encodable, encode_error_of, encoded_as, encoder_result, out_view, webp_header, EncoderOpts, RgbaImage};

verus! {

/// The bytes libwebp writes for a lossless encoding of RGBA pixels.
pub uninterp spec fn webp_lossless_out(rgba: Seq<u8>, width: u32, height: u32) -> Seq<u8>;

/// The bytes (or the error's `Debug` text) of a lossy libwebp encoding of
/// RGBA pixels at `quality`.
pub uninterp spec fn webp_lossy_out(rgba: Seq<u8>, width: u32, height: u32, quality: u8) -> Result<Seq<u8>, Seq<char>>;

/// `webp::Encoder::from_rgba`, then `Encoder::encode_lossless`, copied out
/// of libwebp's memory. The crate unwraps libwebp's result, so a side of 0
/// or above 16383 pixels (libwebp's `WEBP_MAX_DIMENSION`) panics; `requires`
/// leaves those out. That an allocation failure inside libwebp panics too is
/// not excluded. The output is what libwebp hands its memory writer, which
/// starts empty; the lossless encoder writes the RIFF header first (`RIFF`,
/// the size, `WEBP`). The bytes, a function of the arguments (libwebp's
/// default configuration encodes in one thread), are named
/// [`webp_lossless_out`].
#[verifier::external_body]
fn webp_lossless(rgba: &[u8], width: u32, height: u32) -> (r: Vec<u8>)
    requires
        rgba@.len() == width * height * 4,
        1 <= width <= 16383,
        1 <= height <= 16383,
    ensures
        r@ == webp_lossless_out(rgba@, width, height),
        webp_header(r@),
{
    webp::Encoder::from_rgba(rgba, width, height).encode_lossless().to_vec()
}

/// `webp::Encoder::from_rgba`, then `Encoder::encode_simple(false, quality)`
/// (lossy), copied out of libwebp's memory; libwebp's error as its `Debug`
/// text. The crate computes the row stride as `width as i32 * 4`, which
/// overflows (a panic in a debug build) for a width of 2^29 or more;
/// `requires` leaves those out. The lossy encoder too writes the RIFF header
/// first into the empty memory writer; the outcome is named
/// [`webp_lossy_out`].
#[verifier::external_body]
fn webp_lossy(rgba: &[u8], width: u32, height: u32, quality: u8) -> (r: Result<Vec<u8>, String>)
    requires
        rgba@.len() == width * height * 4,
        width * 4 <= 0x7fff_ffff,
    ensures
        out_view(r) == webp_lossy_out(rgba@, width, height, quality),
        r matches Ok(v) ==> webp_header(v@),
{
    match webp::Encoder::from_rgba(rgba, width, height).encode_simple(false, quality.into()) {
        Ok(mem) => Ok(mem.to_vec()),
        Err(e) => Err(format!("{e:?}")),
    }
}

/// The outcome of [`encode`]: libwebp over the RGBA pixels, lossless or
/// lossy at the quality of `opts`.
pub open spec fn webp_out(img: RgbaImage, opts: EncoderOpts) -> Result<Seq<u8>, Seq<char>> {
    if opts.webp_lossless {
        Ok(webp_lossless_out(img.pixels@, img.width, img.height))
    } else {
        webp_lossy_out(img.pixels@, img.width, img.height, opts.quality)
    }
}

/// Encodes as WebP, lossless or lossy at the quality of `opts`.
pub fn encode(img: &RgbaImage, opts: &EncoderOpts) -> (r: Result<Vec<u8>, ImzipError>)
    requires
        encodable(OutputFormat::Webp, *img, *opts),
    ensures
        encoded_as(r, webp_out(*img, *opts), OutputFormat::Webp),
        r matches Ok(v) ==> webp_header(v@),
        r matches Err(e) ==> encode_error_of(e, OutputFormat::Webp),
{
    if opts.webp_lossless {
        Ok(webp_lossless(img.as_raw(), img.width, img.height))
    } else {
        encoder_result(OutputFormat::Webp, webp_lossy(img.as_raw(), img.width, img.height, opts.quality))
    }
}

} // verus!
