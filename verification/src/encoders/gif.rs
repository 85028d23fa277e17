//! GIF encoding with the `image` crate. Static output only (a single frame);
//! alpha is flattened onto the background colour first.

use vstd::prelude::*;
use crate::cli::OutputFormat;
use crate::error::ImzipError;
use super::{encodable, encode_error_of, encoded_as, encoder_result, flat_rgb, flatten_to_rgb, gif_header, out_view, EncoderOpts, RgbaImage};
use image::ImageEncoder;

verus! {

/// The GIF file (or the error's text) that the `image` crate writes for
/// packed RGB pixels.
pub uninterp spec fn gif_write_out(rgb: Seq<u8>, width: u32, height: u32) -> Result<Seq<u8>, Seq<char>>;

/// `image::codecs::gif::GifEncoder::new` over a `Vec`, then
/// `ImageEncoder::write_image` of packed RGB pixels; the encoder's error as
/// its text. A side above 65535 pixels is an error. The `gif` encoder
/// writes the `GIF89a` header and the logical screen descriptor (the frame's
/// width and height, little-endian) first into the empty `Vec`. The
/// outcome, a function of the arguments (the palette comes from NeuQuant in
/// one thread), is named [`gif_write_out`].
#[verifier::external_body]
fn gif_write(rgb: &[u8], width: u32, height: u32) -> (r: Result<Vec<u8>, String>)
    requires
        rgb@.len() == width * height * 3,
    ensures
        out_view(r) == gif_write_out(rgb@, width, height),
        r matches Ok(v) ==> gif_header(v@, width, height),
{
    let mut buf = Vec::new();
    image::codecs::gif::GifEncoder::new(&mut buf)
        .write_image(rgb, width, height, image::ExtendedColorType::Rgb8)
        .map_err(|e| e.to_string())?;
    Ok(buf)
}

/// The outcome of [`encode`]: the `image` crate's GIF encoder over the
/// pixels flattened onto the background.
pub open spec fn gif_out(img: RgbaImage, opts: EncoderOpts) -> Result<Seq<u8>, Seq<char>> {
    gif_write_out(flat_rgb(img.pixels@, opts.background@), img.width, img.height)
}

/// Encodes as a single-frame GIF.
pub fn encode(img: &RgbaImage, opts: &EncoderOpts) -> (r: Result<Vec<u8>, ImzipError>)
    requires
        encodable(OutputFormat::Gif, *img, *opts),
    ensures
        encoded_as(r, gif_out(*img, *opts), OutputFormat::Gif),
        r matches Ok(v) ==> gif_header(v@, img.width, img.height),
        r matches Err(e) ==> encode_error_of(e, OutputFormat::Gif),
{
    let rgb = flatten_to_rgb(img, opts.background);
    encoder_result(OutputFormat::Gif, gif_write(rgb.as_slice(), img.width, img.height))
}

} // verus!
