//! Metadata injection and extraction at the byte level, on hand-made
//! containers and on real encoder output.

use imzip::cli::{ChromaSubsampling, OutputFormat};
use imzip::encoders::{encode, EncoderOpts, RgbaImage};
use imzip::metadata::{
    extract_jpeg, extract_png, extract_webp, inject, inject_jpeg, inject_png, inject_webp, riff_chunks,
    write_png_chunk, MetaMode, Metadata,
};

const PNG_SIG: [u8; 8] = [0x89, b'P', b'N', b'G', 0x0D, 0x0A, 0x1A, 0x0A];
const ICC_HEADER: &[u8] = b"ICC_PROFILE\0";

fn minimal_png() -> Vec<u8> {
    // 1x1 RGBA PNG: signature + IHDR + IDAT + IEND (contents are not
    // required to be a valid image for chunk-level tests).
    let mut data = PNG_SIG.to_vec();
    let mut ihdr = Vec::new();
    ihdr.extend_from_slice(&1u32.to_be_bytes());
    ihdr.extend_from_slice(&1u32.to_be_bytes());
    ihdr.extend_from_slice(&[8, 6, 0, 0, 0]);
    write_png_chunk(&mut data, b"IHDR", &ihdr);
    write_png_chunk(&mut data, b"IDAT", &[0x78, 0x9C, 0x00, 0x01]);
    write_png_chunk(&mut data, b"IEND", &[]);
    data
}

fn minimal_jpeg() -> Vec<u8> {
    // SOI + APP0 (JFIF) + SOS (empty scan).
    let mut data = vec![0xFF, 0xD8];
    data.extend_from_slice(&[0xFF, 0xE0, 0x00, 0x07]);
    data.extend_from_slice(b"JFIF\0");
    data.extend_from_slice(&[0xFF, 0xDA]);
    data
}

/// Deterministic gradient with mild dither noise.
fn gradient_rgba(w: u32, h: u32) -> RgbaImage {
    let mut pixels = Vec::new();
    for y in 0..h {
        for x in 0..w {
            let n = ((x * 7 + y * 13) % 7) as i32 - 3;
            let clamp = |v: i32| v.clamp(0, 255) as u8;
            pixels.push(clamp(((x * 255) / w) as i32 + n));
            pixels.push(clamp(((y * 255) / h) as i32 - n));
            pixels.push(clamp((((x + y) * 255) / (w + h)) as i32 + n));
            pixels.push(255);
        }
    }
    RgbaImage { width: w, height: h, pixels }
}

fn opts() -> EncoderOpts {
    EncoderOpts {
        quality: 80,
        progressive: false,
        chroma_subsampling: ChromaSubsampling::S420,
        png_compression: 2,
        png_colors: None,
        webp_lossless: false,
        avif_speed: 10,
        background: [255, 255, 255],
    }
}

fn sample_meta() -> Metadata {
    Metadata {
        icc: Some((0..2000u32).map(|i| (i % 251) as u8).collect()),
        exif: Some(b"II*\0some-fake-tiff-payload".to_vec()),
        xmp: Some(b"<x:xmpmeta xmlns:x=\"adobe:ns:meta/\">fake</x:xmpmeta>".to_vec()),
    }
}

#[test]
fn png_iccp_roundtrip() {
    let icc: Vec<u8> = (0..50_000u32).map(|i| (i % 251) as u8).collect();
    let meta = Metadata { icc: Some(icc.clone()), exif: None, xmp: None };
    let injected = inject_png(&minimal_png(), &meta).unwrap();
    let back = extract_png(&injected);
    assert_eq!(back.icc.as_deref(), Some(icc.as_slice()));
    assert!(back.exif.is_none());
}

#[test]
fn png_exif_and_xmp_roundtrip() {
    let meta = Metadata {
        icc: None,
        exif: Some(b"II*\0fake-tiff".to_vec()),
        xmp: Some(b"<x:xmpmeta>fake</x:xmpmeta>".to_vec()),
    };
    let injected = inject_png(&minimal_png(), &meta).unwrap();
    let back = extract_png(&injected);
    assert_eq!(back, meta);
}

#[test]
fn png_iccp_chunk_is_before_idat() {
    let meta = Metadata { icc: Some(vec![1, 2, 3]), exif: None, xmp: None };
    let injected = inject_png(&minimal_png(), &meta).unwrap();
    let iccp = injected.windows(4).position(|w| w == b"iCCP").unwrap();
    let idat = injected.windows(4).position(|w| w == b"IDAT").unwrap();
    assert!(iccp < idat);
}

#[test]
fn jpeg_exif_icc_xmp_roundtrip() {
    let meta = Metadata {
        icc: Some(vec![9u8; 1000]),
        exif: Some(b"MM\0*fake".to_vec()),
        xmp: Some(b"<xmp>fake</xmp>".to_vec()),
    };
    let injected = inject_jpeg(&minimal_jpeg(), &meta).unwrap();
    let back = extract_jpeg(&injected);
    assert_eq!(back, meta);
}

#[test]
fn jpeg_large_icc_is_chunked_and_reassembled() {
    // Force a multi-chunk ICC sequence (> 65519 bytes).
    let icc: Vec<u8> = (0..150_000u32).map(|i| (i % 253) as u8).collect();
    let meta = Metadata { icc: Some(icc.clone()), exif: None, xmp: None };
    let injected = inject_jpeg(&minimal_jpeg(), &meta).unwrap();
    let count = injected.windows(ICC_HEADER.len()).filter(|w| *w == ICC_HEADER).count();
    assert!(count >= 2);
    let back = extract_jpeg(&injected);
    assert_eq!(back.icc.as_deref(), Some(icc.as_slice()));
}

#[test]
fn webp_roundtrip_simple_container() {
    // Minimal simple WebP: RIFF + WEBP + VP8L chunk (fake 5-byte payload,
    // odd length to exercise padding).
    let mut data = b"RIFF".to_vec();
    data.extend_from_slice(&21u32.to_le_bytes());
    data.extend_from_slice(b"WEBP");
    data.extend_from_slice(b"VP8L");
    data.extend_from_slice(&5u32.to_le_bytes());
    data.extend_from_slice(&[0x2F, 0, 0, 0, 0]);
    data.push(0);

    let meta = Metadata {
        icc: Some(vec![7u8; 100]),
        exif: Some(b"II*\0".to_vec()),
        xmp: Some(b"<xmp/>".to_vec()),
    };
    let injected = inject_webp(&data, &meta, 64, 32).unwrap();

    let riff_size = u32::from_le_bytes(injected[4..8].try_into().unwrap()) as usize;
    assert_eq!(riff_size + 8, injected.len());

    let back = extract_webp(&injected);
    assert_eq!(back, meta);

    let chunks = riff_chunks(&injected).unwrap();
    let (_, start, size) = chunks.iter().find(|(f, _, _)| f == b"VP8X").unwrap();
    assert_eq!(*size, 10);
    assert_eq!(injected[*start] & 0x2C, 0x2C);
    let w = u32::from_le_bytes([injected[*start + 4], injected[*start + 5], injected[*start + 6], 0]);
    let h = u32::from_le_bytes([injected[*start + 7], injected[*start + 8], injected[*start + 9], 0]);
    assert_eq!((w, h), (63, 31));
}

#[test]
fn jpeg_full_roundtrip() {
    let img = gradient_rgba(16, 16);
    let encoded = encode(OutputFormat::Jpeg, &img, &opts()).unwrap();
    let meta = sample_meta();
    let injected = inject(OutputFormat::Jpeg, encoded, &meta, MetaMode::KeepAll, (16, 16)).unwrap();
    image::load_from_memory(&injected).expect("injected jpeg must still decode");
    assert_eq!(extract_jpeg(&injected), meta);
}

#[test]
fn jpeg_default_keeps_only_icc_and_strip_all_drops_everything() {
    let img = gradient_rgba(16, 16);
    let meta = sample_meta();

    let encoded = encode(OutputFormat::Jpeg, &img, &opts()).unwrap();
    let default_out = inject(OutputFormat::Jpeg, encoded, &meta, MetaMode::Default, (16, 16)).unwrap();
    let m = extract_jpeg(&default_out);
    assert_eq!(m.icc, meta.icc);
    assert!(m.exif.is_none());
    assert!(m.xmp.is_none());

    let encoded = encode(OutputFormat::Jpeg, &img, &opts()).unwrap();
    let stripped = inject(OutputFormat::Jpeg, encoded, &meta, MetaMode::StripAll, (16, 16)).unwrap();
    assert_eq!(extract_jpeg(&stripped), Metadata::default());
}

#[test]
fn png_full_roundtrip_through_oxipng() {
    let img = gradient_rgba(16, 16);
    let encoded = encode(OutputFormat::Png, &img, &opts()).unwrap();
    let meta = sample_meta();
    let injected = inject(OutputFormat::Png, encoded, &meta, MetaMode::KeepAll, (16, 16)).unwrap();
    image::load_from_memory(&injected).expect("injected png must still decode");
    let back = extract_png(&injected);
    assert_eq!(back.icc, meta.icc);
    assert_eq!(back.exif, meta.exif);
    assert_eq!(back.xmp, meta.xmp);
}

#[test]
fn webp_full_roundtrip_through_libwebp() {
    let img = gradient_rgba(16, 16);
    let encoded = encode(OutputFormat::Webp, &img, &opts()).unwrap();
    let meta = sample_meta();
    let injected = inject(OutputFormat::Webp, encoded, &meta, MetaMode::KeepAll, (16, 16)).unwrap();
    let decoded = image::load_from_memory(&injected).expect("injected webp must still decode");
    assert_eq!((decoded.width(), decoded.height()), (16, 16));
    assert_eq!(extract_webp(&injected), meta);
}

#[test]
fn avif_and_gif_never_carry_metadata() {
    let img = gradient_rgba(8, 8);
    let meta = sample_meta();
    let encoded = encode(OutputFormat::Gif, &img, &opts()).unwrap();
    let out = inject(OutputFormat::Gif, encoded.clone(), &meta, MetaMode::KeepAll, (8, 8)).unwrap();
    assert_eq!(out, encoded, "gif output must be untouched");
}

#[test]
fn png_default_mode_keeps_only_icc() {
    let meta = sample_meta();
    let out = inject(OutputFormat::Png, minimal_png(), &meta, MetaMode::Default, (1, 1)).unwrap();
    let back = extract_png(&out);
    assert_eq!(back.icc, meta.icc);
    assert!(back.exif.is_none());
    assert!(back.xmp.is_none());
}

#[test]
fn strip_all_leaves_bytes_untouched() {
    let meta = sample_meta();
    let png = minimal_png();
    let out = inject(OutputFormat::Png, png.clone(), &meta, MetaMode::StripAll, (1, 1)).unwrap();
    assert_eq!(out, png);
}

#[test]
fn inject_errors_name_the_container() {
    let meta = sample_meta();
    match inject(OutputFormat::Jpeg, vec![1, 2, 3], &meta, MetaMode::KeepAll, (1, 1)) {
        Err(imzip::error::ImzipError::Metadata(m)) => assert_eq!(m, "invalid JPEG: missing SOI"),
        other => panic!("unexpected {other:?}"),
    }
    match inject(OutputFormat::Png, vec![1, 2, 3], &meta, MetaMode::KeepAll, (1, 1)) {
        Err(imzip::error::ImzipError::Metadata(m)) => assert_eq!(m, "invalid PNG: bad signature"),
        other => panic!("unexpected {other:?}"),
    }
    let mut no_idat = PNG_SIG.to_vec();
    write_png_chunk(&mut no_idat, b"IEND", &[]);
    match inject(OutputFormat::Png, no_idat, &meta, MetaMode::KeepAll, (1, 1)) {
        Err(imzip::error::ImzipError::Metadata(m)) => assert_eq!(m, "invalid PNG: no IDAT chunk"),
        other => panic!("unexpected {other:?}"),
    }
    match inject(OutputFormat::Webp, vec![1, 2, 3], &meta, MetaMode::KeepAll, (1, 1)) {
        Err(imzip::error::ImzipError::Metadata(m)) => assert_eq!(m, "invalid WebP: bad RIFF header"),
        other => panic!("unexpected {other:?}"),
    }
}

#[test]
fn crc32_of_known_input() {
    assert_eq!(imzip::metadata::crc32(b"IEND"), 0xAE42_6082);
    assert_eq!(imzip::metadata::crc32(b""), 0);
}

#[test]
fn extraction_of_non_images_is_empty() {
    assert_eq!(extract_jpeg(b"not a jpeg"), Metadata::default());
    assert_eq!(extract_png(b"not a png"), Metadata::default());
    assert_eq!(extract_webp(b"not a webp"), Metadata::default());
}

#[test]
fn default_mode_is_keep_all_with_icc_only() {
    let meta = Metadata { icc: Some(vec![7; 40]), exif: Some(b"II*\0x".to_vec()), xmp: Some(b"<x/>".to_vec()) };
    let icc_only = Metadata { icc: meta.icc.clone(), exif: None, xmp: None };
    for (format, data) in [(OutputFormat::Png, minimal_png()), (OutputFormat::Jpeg, minimal_jpeg())] {
        let a = inject(format, data.clone(), &meta, MetaMode::Default, (1, 1)).unwrap();
        let b = inject(format, data, &icc_only, MetaMode::KeepAll, (1, 1)).unwrap();
        assert_eq!(a, b);
    }
    // A valid PNG with an IDAT always takes the metadata.
    assert!(inject_png(&minimal_png(), &meta).is_ok());
}
