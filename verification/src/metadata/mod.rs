//! Byte-level metadata handling for JPEG, PNG and WebP.
//!
//! The encoders produce output without metadata, so the metadata is taken
//! from the input bytes and the wanted parts are put back into the output
//! bytes after encoding.
//!
//! - `exif` is the raw TIFF payload, without the JPEG `Exif\0\0` prefix
//!   (what PNG `eXIf` and WebP `EXIF` chunks carry);
//! - `icc` is the raw ICC profile (JPEG APP2 multi-chunk sequences are
//!   reassembled on extraction and re-chunked on injection);
//! - `xmp` is the raw XMP packet.

pub mod jpeg;
pub mod png;
pub mod webp;

pub use self::jpeg::{extract_jpeg, inject_jpeg};
pub use self::png::{extract_png, inject_png, write_png_chunk, crc32};
pub use self::webp::{extract_webp, inject_webp, riff_chunks, push_riff_chunk};

use vstd::prelude::*;
use crate::cli::OutputFormat;
use crate::error::ImzipError;
use crate::zlib::{zlib_inflate, zlib_deflate};
use self::jpeg::{jpeg_injected, jpeg_metadata, jpeg_scan, empty_scan, jpeg_fits, lemma_jpeg_roundtrip};
use self::png::{png_injected, png_find_idat, png_sig, deflated, png_metadata, no_iend_before_idat, png_fits, lemma_png_roundtrip};
use self::webp::{webp_injected, riff_chunks_spec, webp_metadata, opt_len_ok, lemma_webp_roundtrip};

verus! {

/// How much metadata the output should carry.
#[derive(Debug, Clone, Copy, PartialEq, Eq, Structural)]
pub enum MetaMode {
    /// Strip EXIF/XMP/IPTC, keep the ICC color profile.
    Default,
    /// Drop everything, ICC included.
    StripAll,
    /// Copy ICC + EXIF + XMP (best effort).
    KeepAll,
}

/// The metadata of an image, each part optional.
#[derive(Debug, Clone, PartialEq, Eq)]
pub struct Metadata {
    pub icc: Option<Vec<u8>>,
    pub exif: Option<Vec<u8>>,
    pub xmp: Option<Vec<u8>>,
}

/// The mathematical content of a [`Metadata`].
pub struct MetaView {
    pub icc: Option<Seq<u8>>,
    pub exif: Option<Seq<u8>>,
    pub xmp: Option<Seq<u8>>,
}

pub open spec fn opt_view(o: Option<Vec<u8>>) -> Option<Seq<u8>> {
    match o {
        Some(v) => Some(v@),
        None => None,
    }
}

impl View for Metadata {
    type V = MetaView;

    open spec fn view(&self) -> MetaView {
        MetaView { icc: opt_view(self.icc), exif: opt_view(self.exif), xmp: opt_view(self.xmp) }
    }
}

/// Metadata with no part present.
pub open spec fn empty_meta() -> MetaView {
    MetaView { icc: None, exif: None, xmp: None }
}

impl Default for Metadata {
    fn default() -> (m: Self)
        ensures
            m@ == empty_meta(),
    {
        Metadata { icc: None, exif: None, xmp: None }
    }
}

impl Metadata {
    /// Whether no part is present.
    pub fn is_empty(&self) -> (b: bool)
        ensures
            b == (self.icc.is_none() && self.exif.is_none() && self.xmp.is_none()),
    {
        self.icc.is_none() && self.exif.is_none() && self.xmp.is_none()
    }
}

/// A copy of an optional byte vector.
pub fn copy_opt(o: &Option<Vec<u8>>) -> (r: Option<Vec<u8>>)
    ensures
        opt_view(r) == opt_view(*o),
{
    match o {
        Some(v) => Some(crate::bytes::copy_range(v.as_slice(), 0, v.len())),
        None => None,
    }
}


/// The metadata that `mode` lets through: nothing for `StripAll`, the ICC
/// profile alone for `Default`, everything for `KeepAll`.
pub open spec fn effective(m: MetaView, mode: MetaMode) -> MetaView {
    match mode {
        MetaMode::StripAll => empty_meta(),
        MetaMode::Default => MetaView { icc: m.icc, exif: None, xmp: None },
        MetaMode::KeepAll => m,
    }
}

pub open spec fn meta_empty(m: MetaView) -> bool {
    m.icc is None && m.exif is None && m.xmp is None
}

/// Whether `inject` hands the encoded bytes back untouched: nothing to put
/// in, or an output format that carries none of these parts.
pub open spec fn passes_through(format: OutputFormat, m: MetaView, mode: MetaMode) -> bool {
    meta_empty(effective(m, mode)) || format is Avif || format is Gif
}

fn effective_of(meta: &Metadata, mode: MetaMode) -> (e: Metadata)
    ensures
        e@ == effective(meta@, mode),
{
    match mode {
        MetaMode::StripAll => Metadata { icc: None, exif: None, xmp: None },
        MetaMode::Default => Metadata { icc: copy_opt(&meta.icc), exif: None, xmp: None },
        MetaMode::KeepAll => Metadata {
            icc: copy_opt(&meta.icc),
            exif: copy_opt(&meta.exif),
            xmp: copy_opt(&meta.xmp),
        },
    }
}

/// The bytes `inject` gives for encoded bytes `d`, when it succeeds: `d`
/// itself when nothing passes, else `d` with the parts that `mode` lets
/// through put in; `None` when `d` is not a file of `format` that the parts
/// can be put into.
pub open spec fn inject_spec(format: OutputFormat, d: Seq<u8>, m: MetaView, mode: MetaMode, dims: (u32, u32)) -> Option<Seq<u8>> {
    let e = effective(m, mode);
    if passes_through(format, m, mode) {
        Some(d)
    } else {
        match format {
            OutputFormat::Jpeg => if d.len() >= 2 && d[0] == 0xFF && d[1] == 0xD8 {
                Some(jpeg_injected(d, e))
            } else {
                None
            },
            OutputFormat::Png => if d.len() >= 8 && d.take(8) == png_sig() {
                match png_find_idat(d.skip(8), 8) {
                    Some(at) => Some(png_injected(d, e, deflated(e.icc), at)),
                    None => None,
                }
            } else {
                None
            },
            OutputFormat::Webp => if riff_chunks_spec(d) is Some {
                Some(webp_injected(d, e, dims.0, dims.1))
            } else {
                None
            },
            _ => Some(d),
        }
    }
}

/// Puts the metadata that `mode` lets through into encoded bytes of
/// `format`; `dims` is the image's size, which WebP's extended header needs.
pub fn inject(format: OutputFormat, data: Vec<u8>, meta: &Metadata, mode: MetaMode, dims: (u32, u32)) -> (r: Result<Vec<u8>, ImzipError>)
    ensures
        r is Ok <==> inject_spec(format, data@, meta@, mode, dims) is Some,
        r matches Ok(out) ==> inject_spec(format, data@, meta@, mode, dims) == Some(out@),
        passes_through(format, meta@, mode) ==> (r matches Ok(out) && out@ == data@),
        !passes_through(format, meta@, mode) ==> ({
            let e = effective(meta@, mode);
            match format {
                OutputFormat::Jpeg => {
                    &&& (r is Ok <==> (data@.len() >= 2 && data@[0] == 0xFF && data@[1] == 0xD8))
                    &&& (r matches Ok(out) ==> out@ == jpeg_injected(data@, e))
                    &&& (r matches Err(err) ==> err matches ImzipError::Metadata(msg) && msg@ == "invalid JPEG: missing SOI"@)
                },
                OutputFormat::Png => {
                    &&& (!(data@.len() >= 8 && data@.take(8) == png_sig()) ==> (r matches Err(ImzipError::Metadata(msg))
                        && msg@ == "invalid PNG: bad signature"@))
                    &&& ((data@.len() >= 8 && data@.take(8) == png_sig() && png_find_idat(data@.skip(8), 8) is None) ==> (
                        r matches Err(ImzipError::Metadata(msg)) && msg@ == "invalid PNG: no IDAT chunk"@))
                    &&& (r matches Ok(out) ==> data@.len() >= 8 && data@.take(8) == png_sig() && (png_find_idat(
                        data@.skip(8), 8) matches Some(at) && out@ == png_injected(data@, e, deflated(e.icc), at)))
                    &&& (r matches Ok(_) ==> (e.icc matches Some(c) ==> zlib_inflate(zlib_deflate(c)) == Some(c)))
                    &&& (r is Ok <==> (data@.len() >= 8 && data@.take(8) == png_sig() && png_find_idat(data@.skip(8), 8) is Some))
                    &&& (r matches Err(err) ==> err is Metadata)
                },
                OutputFormat::Webp => {
                    &&& (r is Ok <==> riff_chunks_spec(data@) is Some)
                    &&& (r matches Ok(out) ==> out@ == webp_injected(data@, e, dims.0, dims.1))
                    &&& (r matches Err(err) ==> err matches ImzipError::Metadata(msg) && msg@ == "invalid WebP: bad RIFF header"@)
                },
                _ => true,
            }
        }),
{
    if mode == MetaMode::StripAll {
        return Ok(data);
    }
    let e = effective_of(meta, mode);
    if e.is_empty() {
        return Ok(data);
    }
    match format {
        OutputFormat::Jpeg => inject_jpeg(data.as_slice(), &e),
        OutputFormat::Png => inject_png(data.as_slice(), &e),
        OutputFormat::Webp => inject_webp(data.as_slice(), &e, dims.0, dims.1),
        OutputFormat::Avif | OutputFormat::Gif => Ok(data),
    }
}


/// Metadata modes on JPEG output: from what `inject` returns, `extract_jpeg`
/// reads back exactly the parts the mode lets through (ICC alone by default,
/// nothing with `StripAll`, everything with `KeepAll`), when the encoded
/// bytes carry no metadata of their own and the parts fit their segments.
pub proof fn lemma_jpeg_modes(d: Seq<u8>, m: MetaView, mode: MetaMode)
    requires
        d.len() >= 2,
        d[0] == 0xFF,
        d[1] == 0xD8,
        jpeg_scan(d.skip(2), empty_scan()) == empty_scan(),
        jpeg_fits(effective(m, mode)),
    ensures
        jpeg_metadata(
            if passes_through(OutputFormat::Jpeg, m, mode) { d } else { jpeg_injected(d, effective(m, mode)) },
        ) == effective(m, mode),
{
    if passes_through(OutputFormat::Jpeg, m, mode) {
        assert(effective(m, mode) == empty_meta());
    } else {
        lemma_jpeg_roundtrip(d, effective(m, mode));
    }
}

/// Metadata modes on PNG output: from what `inject` returns, `extract_png`
/// reads back exactly the parts the mode lets through, when the encoded PNG
/// carries no metadata of its own and has no `IEND` before its first `IDAT`
/// (`at` is that `IDAT`'s offset) and the parts fit their chunks.
pub proof fn lemma_png_modes(d: Seq<u8>, m: MetaView, mode: MetaMode, at: int)
    requires
        d.len() >= 8,
        d.take(8) == png_sig(),
        png_find_idat(d.skip(8), 8) == Some(at),
        no_iend_before_idat(d.skip(8)),
        png_metadata(d) == empty_meta(),
        effective(m, mode).icc matches Some(c) ==> zlib_inflate(zlib_deflate(c)) == Some(c),
        png_fits(effective(m, mode), deflated(effective(m, mode).icc)),
    ensures
        png_metadata(
            if passes_through(OutputFormat::Png, m, mode) {
                d
            } else {
                png_injected(d, effective(m, mode), deflated(effective(m, mode).icc), at)
            },
        ) == effective(m, mode),
{
    let e = effective(m, mode);
    if passes_through(OutputFormat::Png, m, mode) {
        assert(e == empty_meta());
    } else {
        lemma_png_roundtrip(d, e, deflated(e.icc), at);
    }
}

/// Metadata modes on WebP output: from what `inject` returns, `extract_webp`
/// reads back exactly the parts the mode lets through, when the encoded file
/// is a RIFF container without metadata of its own and each part is shorter
/// than 4 GiB.
pub proof fn lemma_webp_modes(d: Seq<u8>, m: MetaView, mode: MetaMode, w: u32, h: u32)
    requires
        riff_chunks_spec(d) is Some,
        webp_metadata(d) == empty_meta(),
        opt_len_ok(effective(m, mode).icc),
        opt_len_ok(effective(m, mode).exif),
        opt_len_ok(effective(m, mode).xmp),
    ensures
        webp_metadata(
            if passes_through(OutputFormat::Webp, m, mode) { d } else { webp_injected(d, effective(m, mode), w, h) },
        ) == effective(m, mode),
{
    if passes_through(OutputFormat::Webp, m, mode) {
        assert(effective(m, mode) == empty_meta());
    } else {
        lemma_webp_roundtrip(d, effective(m, mode), w, h);
    }
}

/// The default metadata mode is the keep-everything mode over the ICC
/// profile alone: for every output format, encoded bytes and image size,
/// `inject` succeeds in the one exactly when it succeeds in the other, with
/// the same bytes.
pub proof fn lemma_default_is_icc_only(format: OutputFormat, d: Seq<u8>, m: MetaView, dims: (u32, u32))
    ensures
        inject_spec(format, d, m, MetaMode::Default, dims)
            == inject_spec(format, d, MetaView { icc: m.icc, exif: None, xmp: None }, MetaMode::KeepAll, dims),
{
}

} // verus!
