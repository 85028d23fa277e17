//! Encoder dispatch. Every encoder takes the final RGBA image and returns
//! encoded bytes *without* any metadata (metadata is put back afterwards by
//! `crate::metadata`).

pub mod avif;
pub mod gif;
pub mod jpeg;
pub mod png;
pub mod webp;

use vstd::prelude::*;
use crate::cli::{ChromaSubsampling, OutputFormat};
use crate::error::ImzipError;
use crate::pipeline::name_of;
use crate::bytes::be32_at;
use crate::metadata::png::png_sig;
use crate::metadata::webp::{riff_tag, webp_tag};

verus! {

/// An 8-bit RGBA image: `pixels` holds `width * height` pixels row by row,
/// four bytes each (red, green, blue, alpha).
pub struct RgbaImage {
    pub width: u32,
    pub height: u32,
    pub pixels: Vec<u8>,
}

impl RgbaImage {
    /// Whether the pixel buffer has exactly the size the dimensions give.
    pub open spec fn wf(&self) -> bool {
        self.pixels@.len() == self.width as int * self.height as int * 4
    }

    pub fn width(&self) -> (w: u32)
        ensures
            w == self.width,
    {
        self.width
    }

    pub fn height(&self) -> (h: u32)
        ensures
            h == self.height,
    {
        self.height
    }

    /// The raw pixel bytes.
    pub fn as_raw(&self) -> (r: &[u8])
        ensures
            r@ == self.pixels@,
    {
        self.pixels.as_slice()
    }
}

/// Encoder settings.
#[derive(Clone, Copy, Debug)]
pub struct EncoderOpts {
    pub quality: u8,
    pub progressive: bool,
    pub chroma_subsampling: ChromaSubsampling,
    pub png_compression: u8,
    pub png_colors: Option<u16>,
    pub webp_lossless: bool,
    pub avif_speed: u8,
    pub background: [u8; 3],
}

impl EncoderOpts {
    /// The same settings with another quality.
    pub fn with_quality(&self, quality: u8) -> (o: Self)
        ensures
            o == (EncoderOpts { quality, ..*self }),
    {
        EncoderOpts { quality, ..*self }
    }
}

/// What the encoders need of their input beyond a well-formed image: the
/// sizes libjpeg accepts (1 to 65500 pixels a side), for lossless WebP the
/// sizes libwebp accepts (1 to 16383), for lossy WebP a row of RGBA bytes
/// whose length fits an `i32` (the stride the `webp` crate computes), for
/// AVIF a width of at least 1, a quality from 1 to 100 and a speed from 1
/// to 10.
pub open spec fn encodable(format: OutputFormat, img: RgbaImage, opts: EncoderOpts) -> bool {
    &&& img.wf()
    &&& (format is Jpeg ==> 1 <= img.width <= 65500 && 1 <= img.height <= 65500)
    &&& (format is Webp && opts.webp_lossless ==> 1 <= img.width <= 16383 && 1 <= img.height <= 16383)
    &&& (format is Webp && !opts.webp_lossless ==> img.width * 4 <= 0x7fff_ffff)
    &&& (format is Avif ==> img.width >= 1 && 1 <= opts.quality <= 100 && 1 <= opts.avif_speed <= 10)
}

/// The bytes, or the error message, of an encoder call.
pub open spec fn out_view(res: Result<Vec<u8>, String>) -> Result<Seq<u8>, Seq<char>> {
    match res {
        Ok(v) => Ok(v@),
        Err(m) => Err(m@),
    }
}

/// `r` is what the library reports for the encoder outcome `o` of
/// `format`: the same bytes, or the encoder error of `format` with the same
/// message.
pub open spec fn encoded_as(r: Result<Vec<u8>, ImzipError>, o: Result<Seq<u8>, Seq<char>>, format: OutputFormat) -> bool {
    match o {
        Ok(b) => r matches Ok(v) && v@ == b,
        Err(m) => r matches Err(e) && e matches ImzipError::Encode { format: f, msg } && f@ == name_of(format) && msg@ == m,
    }
}

/// The outcome of encoding `img` as `format` with `opts`, when AVIF is
/// encoded with `threads` threads (the other encoders take no thread
/// count).
pub open spec fn encode_out(format: OutputFormat, img: RgbaImage, opts: EncoderOpts, threads: usize) -> Result<Seq<u8>, Seq<char>> {
    match format {
        OutputFormat::Jpeg => jpeg::jpeg_out(img, opts),
        OutputFormat::Png => png::png_out(img, opts),
        OutputFormat::Webp => webp::webp_out(img, opts),
        OutputFormat::Avif => avif::avif_out(img, opts, threads),
        OutputFormat::Gif => gif::gif_out(img, opts),
    }
}

/// `rayon::current_num_threads`: the number of threads of the current rayon
/// pool, which rayon's documentation gives as at least one. It depends on
/// the machine, so nothing more is stated.
#[verifier::external_body]
pub(crate) fn thread_count() -> (n: usize)
    ensures
        n >= 1,
{
    rayon::current_num_threads()
}

/// Reports the outcome of an encoder call of `format`: its bytes, or its
/// message as the encoder error of `format`.
pub fn encoder_result(format: OutputFormat, res: Result<Vec<u8>, String>) -> (r: Result<Vec<u8>, ImzipError>)
    ensures
        encoded_as(r, out_view(res), format),
{
    match res {
        Ok(v) => Ok(v),
        Err(m) => Err(enc_err(format, m)),
    }
}

/// A JPEG datastream as libjpeg frames it: the `SOI` marker first and the
/// `EOI` marker last.
pub open spec fn jpeg_framed(v: Seq<u8>) -> bool {
    &&& v.len() >= 4
    &&& v[0] == 0xFF && v[1] == 0xD8
    &&& v[v.len() - 2] == 0xFF && v[v.len() - 1] == 0xD9
}

/// The PNG signature followed by the header of an `IHDR` chunk (13 bytes of
/// data), the first chunk of the file.
pub open spec fn png_header(v: Seq<u8>) -> bool {
    &&& v.len() >= 16
    &&& v.take(8) == png_sig()
    &&& v.subrange(8, 16) == seq![0u8, 0, 0, 13, 0x49, 0x48, 0x44, 0x52]
}

/// [`png_header`], with the `IHDR` width and height (big-endian) as given.
pub open spec fn png_header_dims(v: Seq<u8>, width: u32, height: u32) -> bool {
    &&& png_header(v)
    &&& v.len() >= 24
    &&& be32_at(v, 16) == width
    &&& be32_at(v, 20) == height
}

/// A RIFF container of form type `WEBP`.
pub open spec fn webp_header(v: Seq<u8>) -> bool {
    &&& v.len() >= 12
    &&& v.take(4) == riff_tag()
    &&& v.subrange(8, 12) == webp_tag()
}

/// An `ftyp` box first, with major brand `avif`.
pub open spec fn avif_header(v: Seq<u8>) -> bool {
    &&& v.len() >= 12
    &&& v.subrange(4, 8) == seq![0x66u8, 0x74, 0x79, 0x70]
    &&& v.subrange(8, 12) == seq![0x61u8, 0x76, 0x69, 0x66]
}

/// The `GIF89a` header and a logical screen of the given width and height
/// (little-endian).
pub open spec fn gif_header(v: Seq<u8>, width: u32, height: u32) -> bool {
    &&& v.len() >= 10
    &&& v.take(6) == seq![0x47u8, 0x49, 0x46, 0x38, 0x39, 0x61]
    &&& v[6] as int + 256 * v[7] as int == width
    &&& v[8] as int + 256 * v[9] as int == height
}

/// What every `format` file the encoders write begins (and, for JPEG, ends)
/// with, for an image of the given size.
pub open spec fn format_header(format: OutputFormat, v: Seq<u8>, width: u32, height: u32) -> bool {
    match format {
        OutputFormat::Jpeg => jpeg_framed(v),
        OutputFormat::Png => png_header(v),
        OutputFormat::Webp => webp_header(v),
        OutputFormat::Avif => avif_header(v),
        OutputFormat::Gif => gif_header(v, width, height),
    }
}

/// An encoder error of `format`, as reported.
pub open spec fn encode_error_of(e: ImzipError, format: OutputFormat) -> bool {
    e matches ImzipError::Encode { format: f, .. } && f@ == name_of(format)
}

/// Encodes `img` as `format`, AVIF with `threads` threads.
pub fn encode_threads(format: OutputFormat, img: &RgbaImage, opts: &EncoderOpts, threads: usize) -> (r: Result<Vec<u8>, ImzipError>)
    requires
        encodable(format, *img, *opts),
        threads >= 1,
    ensures
        encoded_as(r, encode_out(format, *img, *opts, threads), format),
        r matches Ok(v) ==> format_header(format, v@, img.width, img.height),
        r matches Err(e) ==> encode_error_of(e, format),
{
    match format {
        OutputFormat::Jpeg => jpeg::encode(img, opts),
        OutputFormat::Png => png::encode(img, opts),
        OutputFormat::Webp => webp::encode(img, opts),
        OutputFormat::Avif => avif::encode_threads(img, opts, threads),
        OutputFormat::Gif => gif::encode(img, opts),
    }
}

/// Encodes `img` as `format`, AVIF with as many threads as the current
/// rayon pool has.
pub fn encode(format: OutputFormat, img: &RgbaImage, opts: &EncoderOpts) -> (r: Result<Vec<u8>, ImzipError>)
    requires
        encodable(format, *img, *opts),
    ensures
        exists|n: usize| n >= 1 && #[trigger] encoded_as(r, encode_out(format, *img, *opts, n), format),
        r matches Ok(v) ==> format_header(format, v@, img.width, img.height),
        r matches Err(e) ==> encode_error_of(e, format),
{
    let n = thread_count();
    encode_threads(format, img, opts, n)
}

/// One colour channel `c` with alpha `a` over background channel `bg`,
/// rounded to the nearest value.
pub open spec fn blend(c: u8, bg: u8, a: u8) -> u8 {
    ((c as int * a as int + bg as int * (255 - a as int) + 127) / 255) as u8
}

/// Channel `j` (0 red, 1 green, 2 blue) of pixel `k` flattened onto `bg`:
/// opaque pixels keep their colour, transparent ones take the background,
/// the others are blended.
pub open spec fn flat_channel(px: Seq<u8>, bg: Seq<u8>, k: int, j: int) -> u8 {
    let a = px[4 * k + 3];
    if a == 255 {
        px[4 * k + j]
    } else if a == 0 {
        bg[j]
    } else {
        blend(px[4 * k + j], bg[j], a)
    }
}

fn blend_exec(c: u8, bg: u8, a: u8) -> (r: u8)
    ensures
        r == blend(c, bg, a),
{
    let af = a as u32;
    assert(c as u32 * af + bg as u32 * (255 - af) <= 255 * 255) by (nonlinear_arith)
        requires
            af <= 255,
    ;
    let v = (c as u32 * af + bg as u32 * (255 - af) + 127) / 255;
    assert(v <= 255);
    v as u8
}

/// Packed RGB bytes of RGBA pixels `px` flattened onto `bg`.
pub open spec fn flat_rgb(px: Seq<u8>, bg: Seq<u8>) -> Seq<u8> {
    Seq::new((px.len() / 4 * 3) as nat, |i: int| flat_channel(px, bg, i / 3, i % 3))
}

/// Flattens RGBA onto a solid background, returning packed RGB bytes.
pub fn flatten_to_rgb(img: &RgbaImage, bg: [u8; 3]) -> (out: Vec<u8>)
    requires
        img.wf(),
    ensures
        out@ == flat_rgb(img.pixels@, bg@),
        out@.len() == img.width as int * img.height as int * 3,
        forall|k: int, j: int|
            0 <= k < img.width as int * img.height as int && 0 <= j < 3 ==> #[trigger] out@[3 * k + j]
                == flat_channel(img.pixels@, bg@, k, j),
{
    let px = img.pixels.as_slice();
    let n = px.len() / 4;
    assert(n == img.width as int * img.height as int);
    let mut out: Vec<u8> = Vec::new();
    let mut k: usize = 0;
    while k < n
        invariant
            k <= n,
            n * 4 == px@.len(),
            px@.len() <= usize::MAX,
            px@ == img.pixels@,
            out@.len() == 3 * k,
            forall|i: int, j: int| 0 <= i < k && 0 <= j < 3 ==> #[trigger] out@[3 * i + j]
                == flat_channel(px@, bg@, i, j),
        decreases n - k,
    {
        assert(4 * k + 3 < px@.len()) by (nonlinear_arith)
            requires
                k < n,
                n * 4 == px@.len(),
        ;
        let a = px[4 * k + 3];
        let (r, g, b) = if a == 255 {
            (px[4 * k], px[4 * k + 1], px[4 * k + 2])
        } else if a == 0 {
            (bg[0], bg[1], bg[2])
        } else {
            (blend_exec(px[4 * k], bg[0], a), blend_exec(px[4 * k + 1], bg[1], a), blend_exec(px[4 * k + 2], bg[2], a))
        };
        let ghost old_out = out@;
        out.push(r);
        out.push(g);
        out.push(b);
        proof {
            assert forall|i: int, j: int| 0 <= i < k + 1 && 0 <= j < 3 implies #[trigger] out@[3 * i + j]
                == flat_channel(px@, bg@, i, j) by {
                if i < k {
                    assert(out@[3 * i + j] == old_out[3 * i + j]);
                } else {
                    assert(i == k);
                }
            }
        }
        k = k + 1;
    }
    assert(out@ =~= flat_rgb(img.pixels@, bg@)) by {
        assert forall|i: int| 0 <= i < out@.len() implies out@[i] == flat_rgb(img.pixels@, bg@)[i] by {
            let kk = i / 3;
            let jj = i % 3;
            assert(3 * kk + jj == i);
            assert(out@[3 * kk + jj] == flat_channel(px@, bg@, kk, jj));
        }
    }
    out
}

/// The error of a failed `format` encoder with the encoder's message.
pub(crate) fn enc_err(format: OutputFormat, msg: String) -> (e: ImzipError)
    ensures
        encode_error_of(e, format),
        e matches ImzipError::Encode { msg: m, .. } && m == msg,
{
    ImzipError::encode(format.name(), msg)
}

} // verus!
