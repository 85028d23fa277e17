//! AVIF encoding with ravif (pure Rust, rav1e based).

use vstd::prelude::*;
use crate::cli::OutputFormat;
use crate::error::ImzipError;
use super::{avif_header, encodable, encode_error_of, encoded_as, encoder_result, out_view, thread_count, EncoderOpts, RgbaImage};
use rgb::FromSlice;

verus! {

/// The AVIF file (or the error's text) that ravif makes of RGBA pixels at
/// `quality` and `speed`, run with `threads` threads.
pub uninterp spec fn ravif_out(rgba: Seq<u8>, width: u32, height: u32, quality: u8, speed: u8, threads: usize) -> Result<Seq<u8>, Seq<char>>;

/// `ravif::Encoder::new`, `with_quality`, `with_speed`,
/// `with_num_threads(Some(threads))`, then `encode_rgba` of an
/// `imgref::Img` over the pixels (as `rgb::RGBA8`); the AVIF file of the
/// result, the error as its text. `with_quality` asserts a quality from 1 to
/// 100, `with_speed` a speed from 1 to 10, `with_num_threads` a count of at
/// least 1, and `Img::new` a width of at least 1; `requires` leaves those
/// out. ravif cuts the frame into as many tiles as it has threads, so the
/// thread count is an argument of the outcome, which is named
/// [`ravif_out`]. The file is written by `avif_serialize`, whose first box
/// is `ftyp` with major brand `avif`.
#[verifier::external_body]
fn ravif_encode(rgba: &[u8], width: u32, height: u32, quality: u8, speed: u8, threads: usize) -> (r: Result<Vec<u8>, String>)
    requires
        rgba@.len() == width * height * 4,
        width >= 1,
        1 <= quality <= 100,
        1 <= speed <= 10,
        threads >= 1,
    ensures
        out_view(r) == ravif_out(rgba@, width, height, quality, speed, threads),
        r matches Ok(v) ==> avif_header(v@),
{
    let img = ravif::Img::new(rgba.as_rgba(), width as usize, height as usize);
    ravif::Encoder::new()
        .with_quality(quality.into())
        .with_speed(speed)
        .with_num_threads(Some(threads))
        .encode_rgba(img)
        .map(|e| e.avif_file)
        .map_err(|e| e.to_string())
}

/// The outcome of encoding with `threads` threads: ravif over the RGBA
/// pixels at the quality and speed of `opts`.
pub open spec fn avif_out(img: RgbaImage, opts: EncoderOpts, threads: usize) -> Result<Seq<u8>, Seq<char>> {
    ravif_out(img.pixels@, img.width, img.height, opts.quality, opts.avif_speed, threads)
}

/// Encodes as AVIF at the quality and speed of `opts`, with `threads`
/// threads.
pub fn encode_threads(img: &RgbaImage, opts: &EncoderOpts, threads: usize) -> (r: Result<Vec<u8>, ImzipError>)
    requires
        encodable(OutputFormat::Avif, *img, *opts),
        threads >= 1,
    ensures
        encoded_as(r, avif_out(*img, *opts, threads), OutputFormat::Avif),
        r matches Ok(v) ==> avif_header(v@),
        r matches Err(e) ==> encode_error_of(e, OutputFormat::Avif),
{
    encoder_result(OutputFormat::Avif, ravif_encode(img.as_raw(), img.width, img.height, opts.quality, opts.avif_speed, threads))
}

/// Encodes as AVIF at the quality and speed of `opts`, with as many
/// threads as the current rayon pool has (what ravif takes by default).
pub fn encode(img: &RgbaImage, opts: &EncoderOpts) -> (r: Result<Vec<u8>, ImzipError>)
    requires
        encodable(OutputFormat::Avif, *img, *opts),
    ensures
        exists|n: usize| n >= 1 && #[trigger] encoded_as(r, avif_out(*img, *opts, n), OutputFormat::Avif),
        r matches Ok(v) ==> avif_header(v@),
        r matches Err(e) ==> encode_error_of(e, OutputFormat::Avif),
{
    let n = thread_count();
    encode_threads(img, opts, n)
}

} // verus!
