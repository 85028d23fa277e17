//! PNG encoding: plain RGBA with the `image` crate, or palette-quantized
//! with imagequant and written with the `png` crate; then always optimized
//! by oxipng.

use vstd::prelude::*;
use crate::cli::OutputFormat;
use crate::error::ImzipError;
use super::{enc_err, encodable, encode_error_of, encoded_as, encoder_result, out_view, png_header, png_header_dims, EncoderOpts, RgbaImage};
use image::ImageEncoder;
use rgb::FromSlice;

verus! {

/// The bytes (or the error's text) of oxipng's optimization of a PNG at a
/// preset level.
pub uninterp spec fn oxipng_out(png: Seq<u8>, preset: u8) -> Result<Seq<u8>, Seq<char>>;

/// The palette and indices (or the error's text) that imagequant makes of
/// RGBA pixels with at most `colors` entries.
pub uninterp spec fn quantized(rgba: Seq<u8>, width: u32, height: u32, colors: u16) -> Result<(Seq<[u8; 4]>, Seq<u8>), Seq<char>>;

/// The PNG (or the error's text) that the `image` crate writes for RGBA8
/// pixels.
pub uninterp spec fn png_rgba_out(rgba: Seq<u8>, width: u32, height: u32) -> Result<Seq<u8>, Seq<char>>;

/// The indexed PNG (or the error's text) that the `png` crate writes for a
/// `PLTE` payload and indices.
pub uninterp spec fn png_indexed_out(width: u32, height: u32, palette: Seq<u8>, indices: Seq<u8>) -> Result<Seq<u8>, Seq<char>>;

/// The same with a `tRNS` payload.
pub uninterp spec fn png_indexed_trns_out(width: u32, height: u32, palette: Seq<u8>, trns: Seq<u8>, indices: Seq<u8>) -> Result<Seq<u8>, Seq<char>>;

/// `oxipng::Options::from_preset(preset)`, then
/// `oxipng::optimize_from_memory`; the error as its text. Its result is
/// either the input unchanged (already optimal) or a file that oxipng writes
/// anew, which starts with the PNG signature and an `IHDR` chunk; so the
/// header holds of the result when it holds of the input. The outcome is
/// named [`oxipng_out`]: oxipng tries its filters in threads, but picks the
/// smallest result by a key (size, then filter, then the order the trials
/// were queued in) that does not depend on which thread finished first. Of
/// the `IHDR` fields of a result written anew nothing more is stated.
#[verifier::external_body]
fn oxipng_optimize(png: &[u8], preset: u8) -> (r: Result<Vec<u8>, String>)
    requires
        png_header(png@),
    ensures
        out_view(r) == oxipng_out(png@, preset),
        r matches Ok(v) ==> png_header(v@),
{
    oxipng::optimize_from_memory(png, &oxipng::Options::from_preset(preset)).map_err(|e| e.to_string())
}

/// `image::codecs::png::PngEncoder::new` over a `Vec`, then
/// `ImageEncoder::write_image` of the RGBA8 pixels; the error as its text.
/// `write_image` asserts a buffer of exactly `width * height * 4` bytes,
/// which `requires` states. The `png` encoder writes the signature and the
/// `IHDR` chunk with the width and height first into the empty `Vec`; the
/// outcome is named [`png_rgba_out`].
#[verifier::external_body]
fn png_write_rgba(rgba: &[u8], width: u32, height: u32) -> (r: Result<Vec<u8>, String>)
    requires
        rgba@.len() == width * height * 4,
    ensures
        out_view(r) == png_rgba_out(rgba@, width, height),
        r matches Ok(v) ==> png_header_dims(v@, width, height),
{
    let mut buf = Vec::new();
    image::codecs::png::PngEncoder::new(&mut buf)
        .write_image(rgba, width, height, image::ExtendedColorType::Rgba8)
        .map_err(|e| e.to_string())?;
    Ok(buf)
}

/// Palette quantization with imagequant: `imagequant::new`,
/// `set_max_colors(colors)`, `new_image_borrowed` (gamma 0, the default),
/// `quantize`, `set_dithering_level` at 1 (full dithering), then
/// `remapped`: the palette (each entry as red, green, blue, alpha) and one
/// palette index per pixel; any error as its text. The outcome is named
/// [`quantized`]: this build leaves imagequant's `threads` feature off, so it
/// quantizes in one thread, and its hash maps use a fixed hasher.
#[verifier::external_body]
fn quantize(rgba: &[u8], width: u32, height: u32, colors: u16) -> (r: Result<(Vec<[u8; 4]>, Vec<u8>), String>)
    ensures
        quantized_view(r) == quantized(rgba@, width, height, colors),
{
    let mut attr = imagequant::new();
    attr.set_max_colors(colors as u32).map_err(|e| e.to_string())?;
    let mut img = attr.new_image_borrowed(rgba.as_rgba(), width as usize, height as usize, Default::default()).map_err(|e| e.to_string())?;
    let mut res = attr.quantize(&mut img).map_err(|e| e.to_string())?;
    res.set_dithering_level(1u8.into()).map_err(|e| e.to_string())?;
    let (palette, indices) = res.remapped(&mut img).map_err(|e| e.to_string())?;
    Ok((palette.iter().map(|c| [c.r, c.g, c.b, c.a]).collect(), indices))
}

/// An 8-bit indexed PNG with the `png` crate: `Encoder::new` over a `Vec`,
/// `set_color(Indexed)`, `set_depth(Eight)`, `set_palette`, then
/// `write_header`, `Writer::write_image_data` and `Writer::finish`; the
/// error as its text. No `tRNS` chunk. The encoder writes the signature and
/// the `IHDR` chunk with the width and height first into the empty `Vec`;
/// the outcome is named [`png_indexed_out`].
#[verifier::external_body]
fn png_write_indexed(width: u32, height: u32, palette: Vec<u8>, indices: &[u8]) -> (r: Result<Vec<u8>, String>)
    ensures
        out_view(r) == png_indexed_out(width, height, palette@, indices@),
        r matches Ok(v) ==> png_header_dims(v@, width, height),
{
    let mut buf = Vec::new();
    let mut encoder = png::Encoder::new(&mut buf, width, height);
    encoder.set_color(png::ColorType::Indexed);
    encoder.set_depth(png::BitDepth::Eight);
    encoder.set_palette(palette);
    let mut writer = encoder.write_header().map_err(|e| e.to_string())?;
    writer.write_image_data(indices).map_err(|e| e.to_string())?;
    writer.finish().map_err(|e| e.to_string())?;
    Ok(buf)
}

/// As [`png_write_indexed`], with `set_trns(trns)` called after
/// `set_palette`, which writes a `tRNS` chunk; the same header. The
/// outcome is named [`png_indexed_trns_out`].
#[verifier::external_body]
fn png_write_indexed_trns(width: u32, height: u32, palette: Vec<u8>, trns: Vec<u8>, indices: &[u8]) -> (r: Result<Vec<u8>, String>)
    ensures
        out_view(r) == png_indexed_trns_out(width, height, palette@, trns@, indices@),
        r matches Ok(v) ==> png_header_dims(v@, width, height),
{
    let mut buf = Vec::new();
    let mut encoder = png::Encoder::new(&mut buf, width, height);
    encoder.set_color(png::ColorType::Indexed);
    encoder.set_depth(png::BitDepth::Eight);
    encoder.set_palette(palette);
    encoder.set_trns(trns);
    let mut writer = encoder.write_header().map_err(|e| e.to_string())?;
    writer.write_image_data(indices).map_err(|e| e.to_string())?;
    writer.finish().map_err(|e| e.to_string())?;
    Ok(buf)
}

/// The `PLTE` bytes of a palette: red, green, blue of each entry.
pub open spec fn palette_bytes(pal: Seq<[u8; 4]>) -> Seq<u8> {
    Seq::new(3 * pal.len(), |i: int| pal[i / 3][i % 3])
}

/// Whether entry `i` of the palette is not fully opaque.
pub open spec fn translucent(pal: Seq<[u8; 4]>, i: int) -> bool {
    pal[i][3] < 255
}

/// The `tRNS` bytes of a palette: the alpha of each entry up to the last one
/// that is not fully opaque (a `tRNS` chunk may leave out trailing opaque
/// entries); empty when all are opaque.
pub open spec fn trns_bytes(pal: Seq<[u8; 4]>) -> Seq<u8> {
    if exists|i: int| 0 <= i < pal.len() && translucent(pal, i) {
        let last = choose|i: int| 0 <= i < pal.len() && translucent(pal, i)
            && forall|j: int| i < j < pal.len() ==> !translucent(pal, j);
        Seq::new((last + 1) as nat, |k: int| pal[k][3])
    } else {
        Seq::empty()
    }
}

/// Builds the `PLTE` and `tRNS` bytes of a palette.
pub fn palette_chunks(pal: &Vec<[u8; 4]>) -> (r: (Vec<u8>, Vec<u8>))
    ensures
        r.0@ == palette_bytes(pal@),
        r.1@ == trns_bytes(pal@),
{
    let mut plte: Vec<u8> = Vec::new();
    let mut i: usize = 0;
    while i < pal.len()
        invariant
            i <= pal.len(),
            plte@ == palette_bytes(pal@.take(i as int)),
        decreases pal.len() - i,
    {
        let c = pal[i];
        let ghost before = plte@;
        plte.push(c[0]);
        plte.push(c[1]);
        plte.push(c[2]);
        proof {
            let t = pal@.take(i + 1);
            assert(t.take(i as int) =~= pal@.take(i as int));
            assert forall|k: int| 0 <= k < 3 * (i + 1) implies #[trigger] plte@[k] == palette_bytes(t)[k] by {
                if k < 3 * i {
                    assert(plte@[k] == before[k]);
                    assert(t[k / 3] == pal@.take(i as int)[k / 3]);
                } else {
                    assert(k / 3 == i);
                }
            }
            assert(plte@ =~= palette_bytes(t));
        }
        i = i + 1;
    }
    assert(pal@.take(pal.len() as int) =~= pal@);
    // The last entry that is not fully opaque, searching from the end.
    let mut n: usize = pal.len();
    while n > 0 && pal[n - 1][3] == 255
        invariant
            n <= pal.len(),
            forall|j: int| n <= j < pal.len() ==> !translucent(pal@, j),
        decreases n,
    {
        n = n - 1;
    }
    let mut trns: Vec<u8> = Vec::new();
    let mut k: usize = 0;
    while k < n
        invariant
            k <= n <= pal.len(),
            trns@ =~= Seq::new(k as nat, |m: int| pal@[m][3]),
        decreases n - k,
    {
        trns.push(pal[k][3]);
        k = k + 1;
    }
    proof {
        if n > 0 {
            assert(translucent(pal@, n - 1));
            let last = choose|i: int| 0 <= i < pal@.len() && translucent(pal@, i)
                && forall|j: int| i < j < pal@.len() ==> !translucent(pal@, j);
            assert(exists|i: int| 0 <= i < pal@.len() && translucent(pal@, i)
                && forall|j: int| i < j < pal@.len() ==> !translucent(pal@, j));
            assert(last == n - 1);
        } else {
            assert(!exists|i: int| 0 <= i < pal@.len() && translucent(pal@, i));
        }
    }
    (plte, trns)
}

fn png_err(m: String) -> (e: ImzipError)
    ensures
        encode_error_of(e, OutputFormat::Png),
        e matches ImzipError::Encode { msg, .. } && msg == m,
{
    enc_err(OutputFormat::Png, m)
}

/// A palette and one index per pixel, or the quantizer's message.
pub open spec fn quantized_view(q: Result<(Vec<[u8; 4]>, Vec<u8>), String>) -> Result<(Seq<[u8; 4]>, Seq<u8>), Seq<char>> {
    match q {
        Ok((p, i)) => Ok((p@, i@)),
        Err(m) => Err(m@),
    }
}

/// The indexed PNG the `png` crate writes for a quantizer outcome `q`:
/// `PLTE` from the palette, and `tRNS` when some entry is not fully opaque.
pub open spec fn indexed_out(img: RgbaImage, q: Result<(Seq<[u8; 4]>, Seq<u8>), Seq<char>>) -> Result<Seq<u8>, Seq<char>> {
    match q {
        Err(m) => Err(m),
        Ok((pal, idx)) => {
            let trns = trns_bytes(pal);
            if trns.len() == 0 {
                png_indexed_out(img.width, img.height, palette_bytes(pal), idx)
            } else {
                png_indexed_trns_out(img.width, img.height, palette_bytes(pal), trns, idx)
            }
        },
    }
}

/// oxipng at `preset` over the outcome of a first encoding.
pub open spec fn then_optimize(raw: Result<Seq<u8>, Seq<char>>, preset: u8) -> Result<Seq<u8>, Seq<char>> {
    match raw {
        Ok(b) => oxipng_out(b, preset),
        Err(m) => Err(m),
    }
}

/// The outcome of [`encode`]: the palette PNG of the quantized pixels when
/// `png_colors` is set, else the RGBA PNG of the `image` crate; then oxipng
/// at the preset `png_compression`.
pub open spec fn png_out(img: RgbaImage, opts: EncoderOpts) -> Result<Seq<u8>, Seq<char>> {
    let first = match opts.png_colors {
        Some(c) => indexed_out(img, quantized(img.pixels@, img.width, img.height, c)),
        None => png_rgba_out(img.pixels@, img.width, img.height),
    };
    then_optimize(first, opts.png_compression)
}

/// Writes the indexed PNG for what the quantizer gave: its error, or its
/// palette and indices.
pub fn indexed_png(img: &RgbaImage, quantized: Result<(Vec<[u8; 4]>, Vec<u8>), String>) -> (r: Result<Vec<u8>, ImzipError>)
    ensures
        encoded_as(r, indexed_out(*img, quantized_view(quantized)), OutputFormat::Png),
        r matches Ok(v) ==> png_header_dims(v@, img.width, img.height),
        r matches Err(e) ==> encode_error_of(e, OutputFormat::Png),
{
    let (palette, indices) = match quantized {
        Ok(x) => x,
        Err(m) => return Err(png_err(m)),
    };
    let (plte, trns) = palette_chunks(&palette);
    let res = if trns.len() == 0 {
        png_write_indexed(img.width, img.height, plte, indices.as_slice())
    } else {
        png_write_indexed_trns(img.width, img.height, plte, trns, indices.as_slice())
    };
    encoder_result(OutputFormat::Png, res)
}

/// Quantizes to at most `colors` palette entries and writes an indexed PNG
/// (`PLTE`, and `tRNS` when some entry is not fully opaque).
fn encode_indexed(img: &RgbaImage, colors: u16) -> (r: Result<Vec<u8>, ImzipError>)
    ensures
        encoded_as(r, indexed_out(*img, quantized(img.pixels@, img.width, img.height, colors)), OutputFormat::Png),
        r matches Ok(v) ==> png_header_dims(v@, img.width, img.height),
        r matches Err(e) ==> encode_error_of(e, OutputFormat::Png),
{
    let q = quantize(img.as_raw(), img.width, img.height, colors);
    indexed_png(img, q)
}

/// Encodes as PNG: palette-quantized when `png_colors` is set, else plain
/// RGBA; then optimized by oxipng at the preset `png_compression`.
pub fn encode(img: &RgbaImage, opts: &EncoderOpts) -> (r: Result<Vec<u8>, ImzipError>)
    requires
        encodable(OutputFormat::Png, *img, *opts),
    ensures
        encoded_as(r, png_out(*img, *opts), OutputFormat::Png),
        r matches Ok(v) ==> png_header(v@),
        r matches Err(e) ==> encode_error_of(e, OutputFormat::Png),
{
    let ghost mut first: Result<Seq<u8>, Seq<char>> = Err(Seq::empty());
    let raw = match opts.png_colors {
        Some(colors) => {
            let ri = encode_indexed(img, colors);
            proof {
                first = indexed_out(*img, quantized(img.pixels@, img.width, img.height, colors));
            }
            match ri {
                Ok(v) => v,
                Err(e) => return Err(e),
            }
        },
        None => {
            let rr = png_write_rgba(img.as_raw(), img.width, img.height);
            proof {
                first = out_view(rr);
            }
            match rr {
                Ok(v) => v,
                Err(m) => return Err(png_err(m)),
            }
        },
    };
    assert(first == Ok::<Seq<u8>, Seq<char>>(raw@));
    let res = oxipng_optimize(raw.as_slice(), opts.png_compression);
    let r = encoder_result(OutputFormat::Png, res);
    assert(then_optimize(first, opts.png_compression) == out_view(res));
    r
}

} // verus!
