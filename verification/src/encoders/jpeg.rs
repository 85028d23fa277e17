//! JPEG encoding with mozjpeg: quality, progressive mode, chroma subsampling.

use vstd::prelude::*;
use crate::cli::{ChromaSubsampling, OutputFormat};
use crate::error::ImzipError;
use super::{encodable, encode_error_of, encoded_as, encoder_result, flat_rgb, flatten_to_rgb, jpeg_framed, out_view, EncoderOpts, RgbaImage};

verus! {

/// The bytes (or the error's text) of mozjpeg's baseline compression of
/// packed RGB pixels with these size, quality and chroma settings.
pub uninterp spec fn mozjpeg_baseline_out(rgb: Seq<u8>, width: usize, height: usize, quality: u8, cb: (u8, u8), cr: (u8, u8)) -> Result<Seq<u8>, Seq<char>>;

/// The same for progressive mode.
pub uninterp spec fn mozjpeg_progressive_out(rgb: Seq<u8>, width: usize, height: usize, quality: u8, cb: (u8, u8), cr: (u8, u8)) -> Result<Seq<u8>, Seq<char>>;

/// `mozjpeg` compression of packed RGB pixels in baseline mode:
/// `Compress::new(ColorSpace::JCS_RGB)`, `set_size`, `set_quality`,
/// `set_chroma_sampling_pixel_sizes`, then `start_compress` into a `Vec`,
/// `write_scanlines` and `finish`. libjpeg stops (a panic here) on a side of
/// 0 or above 65500 pixels and on fewer rows than the height, which
/// `requires` leaves out. The output is everything libjpeg writes into the
/// empty `Vec`: its marker writer emits `SOI` when compression starts and
/// `EOI` when it finishes, so the bytes begin with `FF D8` and end with
/// `FF D9`. The whole outcome, a function of the arguments (libjpeg uses
/// neither threads nor chance), is named [`mozjpeg_baseline_out`].
#[verifier::external_body]
fn mozjpeg_baseline(rgb: &[u8], width: usize, height: usize, quality: u8, cb: (u8, u8), cr: (u8, u8)) -> (r: Result<Vec<u8>, String>)
    requires
        1 <= width <= 65500,
        1 <= height <= 65500,
        rgb@.len() == width * height * 3,
    ensures
        out_view(r) == mozjpeg_baseline_out(rgb@, width, height, quality, cb, cr),
        r matches Ok(v) ==> jpeg_framed(v@),
{
    let mut c = mozjpeg::Compress::new(mozjpeg::ColorSpace::JCS_RGB);
    c.set_size(width, height);
    c.set_quality(quality.into());
    c.set_chroma_sampling_pixel_sizes(cb, cr);
    let mut s = c.start_compress(Vec::new()).map_err(|e| e.to_string())?;
    s.write_scanlines(rgb).map_err(|e| e.to_string())?;
    s.finish().map_err(|e| e.to_string())
}

/// As [`mozjpeg_baseline`], with `set_progressive_mode` called after
/// `set_quality`; the same framing. The outcome is named
/// [`mozjpeg_progressive_out`].
#[verifier::external_body]
fn mozjpeg_progressive(rgb: &[u8], width: usize, height: usize, quality: u8, cb: (u8, u8), cr: (u8, u8)) -> (r: Result<Vec<u8>, String>)
    requires
        1 <= width <= 65500,
        1 <= height <= 65500,
        rgb@.len() == width * height * 3,
    ensures
        out_view(r) == mozjpeg_progressive_out(rgb@, width, height, quality, cb, cr),
        r matches Ok(v) ==> jpeg_framed(v@),
{
    let mut c = mozjpeg::Compress::new(mozjpeg::ColorSpace::JCS_RGB);
    c.set_size(width, height);
    c.set_quality(quality.into());
    c.set_progressive_mode();
    c.set_chroma_sampling_pixel_sizes(cb, cr);
    let mut s = c.start_compress(Vec::new()).map_err(|e| e.to_string())?;
    s.write_scanlines(rgb).map_err(|e| e.to_string())?;
    s.finish().map_err(|e| e.to_string())
}

/// The chroma "pixel sizes" (Cb, Cr) relative to luma that mozjpeg takes
/// for a subsampling.
pub open spec fn chroma_pixel_sizes(c: ChromaSubsampling) -> ((u8, u8), (u8, u8)) {
    match c {
        ChromaSubsampling::S444 => ((1, 1), (1, 1)),
        ChromaSubsampling::S422 => ((2, 1), (2, 1)),
        ChromaSubsampling::S420 => ((2, 2), (2, 2)),
    }
}

fn chroma_sizes(c: ChromaSubsampling) -> (r: ((u8, u8), (u8, u8)))
    ensures
        r == chroma_pixel_sizes(c),
{
    match c {
        ChromaSubsampling::S444 => ((1, 1), (1, 1)),
        ChromaSubsampling::S422 => ((2, 1), (2, 1)),
        ChromaSubsampling::S420 => ((2, 2), (2, 2)),
    }
}

/// The outcome of [`encode`]: mozjpeg, progressive or baseline, over the
/// pixels flattened onto the background, with the quality and the chroma
/// subsampling of `opts`.
pub open spec fn jpeg_out(img: RgbaImage, opts: EncoderOpts) -> Result<Seq<u8>, Seq<char>> {
    let rgb = flat_rgb(img.pixels@, opts.background@);
    let (cb, cr) = chroma_pixel_sizes(opts.chroma_subsampling);
    if opts.progressive {
        mozjpeg_progressive_out(rgb, img.width as usize, img.height as usize, opts.quality, cb, cr)
    } else {
        mozjpeg_baseline_out(rgb, img.width as usize, img.height as usize, opts.quality, cb, cr)
    }
}

/// Encodes as JPEG; JPEG has no alpha channel, so the image is flattened
/// onto the background colour first.
pub fn encode(img: &RgbaImage, opts: &EncoderOpts) -> (r: Result<Vec<u8>, ImzipError>)
    requires
        encodable(OutputFormat::Jpeg, *img, *opts),
    ensures
        encoded_as(r, jpeg_out(*img, *opts), OutputFormat::Jpeg),
        r matches Ok(v) ==> jpeg_framed(v@),
        r matches Err(e) ==> encode_error_of(e, OutputFormat::Jpeg),
{
    let w = img.width as usize;
    let h = img.height as usize;
    let rgb = flatten_to_rgb(img, opts.background);
    let (cb, cr) = chroma_sizes(opts.chroma_subsampling);
    let res = if opts.progressive {
        mozjpeg_progressive(rgb.as_slice(), w, h, opts.quality, cb, cr)
    } else {
        mozjpeg_baseline(rgb.as_slice(), w, h, opts.quality, cb, cr)
    };
    encoder_result(OutputFormat::Jpeg, res)
}

} // verus!
