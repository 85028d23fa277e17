//! Per-file decisions: formats, skip rules, output paths, the quality
//! search and processing of a decoded image.

use imzip::batch::InputEntry;
use imzip::cli::{ChromaSubsampling, OutputFormat};
use imzip::config::{resolve, Cli, FileConfig, Settings, SizeArg};
use imzip::encoders::{EncoderOpts, RgbaImage};
use imzip::error::ImzipError;
use imzip::metadata::MetaMode;
use imzip::pipeline::{
    already_optimal, can_encode, check_overwrite, decode, detect_input_kind, encode_with_search, output_format,
    output_path, process_decoded, apply_resize, source_metadata, target_check, InputKind, Outcome, QualitySearch,
};

fn settings(edit: impl FnOnce(&mut Cli)) -> Settings {
    let mut c = Cli::default();
    c.io.inputs = vec!["a.png".to_string()];
    edit(&mut c);
    resolve(&c, &FileConfig::default(), 1).unwrap()
}

fn entry(path: &str, root: Option<&str>, index: usize) -> InputEntry {
    InputEntry { path: path.to_string(), root: root.map(|r| r.to_string()), index }
}

fn gradient(w: u32, h: u32) -> RgbaImage {
    let mut pixels = Vec::new();
    for y in 0..h {
        for x in 0..w {
            pixels.extend_from_slice(&[(x * 13 % 256) as u8, (y * 29 % 256) as u8, ((x ^ y) * 7 % 256) as u8, 255]);
        }
    }
    RgbaImage { width: w, height: h, pixels }
}

#[test]
fn output_format_choice() {
    assert_eq!(output_format(Some(OutputFormat::Webp), InputKind::Jpeg), OutputFormat::Webp);
    assert_eq!(output_format(None, InputKind::Jpeg), OutputFormat::Jpeg);
    assert_eq!(output_format(None, InputKind::Gif), OutputFormat::Gif);
    assert_eq!(output_format(None, InputKind::Other), OutputFormat::Png);
}

#[test]
fn target_rules() {
    match target_check(Some(100), false, OutputFormat::Png, 50) {
        Err(ImzipError::Invalid(m)) => {
            assert_eq!(m, "--target-size is only supported for lossy output (jpeg/webp/avif), not png")
        },
        other => panic!("unexpected {other:?}"),
    }
    assert!(target_check(Some(100), false, OutputFormat::Jpeg, 100).unwrap());
    assert!(!target_check(Some(100), true, OutputFormat::Jpeg, 100).unwrap());
    assert!(!target_check(Some(100), false, OutputFormat::Jpeg, 101).unwrap());
    assert!(!target_check(None, false, OutputFormat::Gif, 1).unwrap());
}

#[test]
fn output_paths() {
    let dims = (32, 16);
    let s = settings(|_| {});
    assert_eq!(output_path(&entry("imgs/a.png", None, 1), &s, OutputFormat::Png, dims).unwrap(), "imgs/a_imzip.png");
    let s = settings(|c| c.io.in_place = true);
    assert_eq!(output_path(&entry("imgs/a.png", None, 1), &s, OutputFormat::Webp, dims).unwrap(), "imgs/a.webp");
    let s = settings(|c| c.io.output = Some("out".to_string()));
    assert_eq!(
        output_path(&entry("photos/2024/a.png", Some("photos"), 1), &s, OutputFormat::Png, dims).unwrap(),
        "out/2024/a_imzip.png"
    );
    assert_eq!(output_path(&entry("photos/a.png", None, 1), &s, OutputFormat::Png, dims).unwrap(), "out/a_imzip.png");
    let s = settings(|c| {
        c.io.output = Some("out".to_string());
        c.io.name_template = Some("{parent}/{name}-{width}x{height}.{ext}".to_string());
    });
    assert_eq!(
        output_path(&entry("dir/pic.png", Some("dir"), 1), &s, OutputFormat::Png, dims).unwrap(),
        "out/dir/pic-32x16.png"
    );
}

#[test]
fn already_optimal_rule() {
    assert!(already_optimal(InputKind::Jpeg, OutputFormat::Jpeg, false, false, 100, 101));
    assert!(!already_optimal(InputKind::Jpeg, OutputFormat::Jpeg, false, false, 100, 100));
    assert!(!already_optimal(InputKind::Jpeg, OutputFormat::Jpeg, true, false, 100, 101));
    assert!(!already_optimal(InputKind::Jpeg, OutputFormat::Jpeg, false, true, 100, 101));
    assert!(!already_optimal(InputKind::Jpeg, OutputFormat::Webp, false, false, 100, 101));
    assert!(!already_optimal(InputKind::Other, OutputFormat::Png, false, false, 100, 101));
}

#[test]
fn overwrite_rule() {
    match check_overwrite("out/a.png", true, false, false, false) {
        Err(ImzipError::Invalid(m)) => assert_eq!(m, "output exists: out/a.png (use --force to overwrite)"),
        other => panic!("unexpected {other:?}"),
    }
    assert!(check_overwrite("out/a.png", true, true, false, false).is_ok());
    assert!(check_overwrite("a.webp", true, false, true, false).is_ok());
    assert!(check_overwrite("out/a.png", true, false, false, true).is_ok());
    assert!(check_overwrite("out/a.png", false, false, false, false).is_ok());
}

#[test]
fn input_kind_by_extension_then_content() {
    assert_eq!(detect_input_kind("x.JPG", b"whatever"), InputKind::Jpeg);
    assert_eq!(detect_input_kind("x.tif", b"whatever"), InputKind::Other);
    assert_eq!(detect_input_kind("noext", &[0x89, b'P', b'N', b'G', 0x0D, 0x0A, 0x1A, 0x0A]), InputKind::Png);
    assert_eq!(detect_input_kind("noext", b"GIF89a...."), InputKind::Gif);
}

#[test]
fn quality_search_steps() {
    let mut s = QualitySearch::new();
    assert!(!s.done());
    assert_eq!(s.mid(), 50);
    s.record(500, 1000); // fits: search higher
    assert_eq!(s.best, Some(50));
    assert_eq!(s.mid(), 75);
    s.record(2000, 1000); // too big: search lower
    assert_eq!((s.lo, s.hi), (51, 74));
    assert_eq!(s.probes, 2);
}

#[test]
fn quality_search_ends_after_seven_probes() {
    // sizes grow with quality: quality q gives 10 * q bytes; target 555
    let mut s = QualitySearch::new();
    let mut n = 0;
    while !s.done() {
        let q = s.mid() as u64;
        s.record(10 * q, 555);
        n += 1;
    }
    assert!(n <= 7);
    assert_eq!(s.best, Some(55));
}

fn opts(quality: u8) -> EncoderOpts {
    EncoderOpts {
        quality,
        progressive: false,
        chroma_subsampling: ChromaSubsampling::S420,
        png_compression: 2,
        png_colors: None,
        webp_lossless: false,
        avif_speed: 10,
        background: [255, 255, 255],
    }
}

#[test]
fn search_hits_a_reachable_target() {
    let img = gradient(64, 64);
    let (buf, q, reached) = encode_with_search(OutputFormat::Jpeg, &img, &opts(75), Some(4000)).unwrap();
    assert!(reached);
    assert!(buf.len() <= 4000);
    let q = q.unwrap();
    assert!((1..=100).contains(&q));
}

#[test]
fn search_reports_an_unreachable_target() {
    let img = gradient(64, 64);
    let (_, q, reached) = encode_with_search(OutputFormat::Jpeg, &img, &opts(75), Some(10)).unwrap();
    assert!(!reached);
    assert_eq!(q, Some(1));
}

#[test]
fn no_target_encodes_once() {
    let img = gradient(8, 8);
    let (buf, q, reached) = encode_with_search(OutputFormat::Png, &img, &opts(75), None).unwrap();
    assert!(!buf.is_empty());
    assert_eq!(q, None);
    assert!(reached);
}

#[test]
fn encodability_limits() {
    let img = gradient(8, 8);
    assert!(can_encode(OutputFormat::Jpeg, &img, &opts(75), None));
    assert!(!can_encode(OutputFormat::Avif, &img, &opts(0), None));
    assert!(can_encode(OutputFormat::Avif, &img, &opts(0), Some(100)));
    let empty = RgbaImage { width: 0, height: 0, pixels: vec![] };
    assert!(!can_encode(OutputFormat::Jpeg, &empty, &opts(75), None));
    assert!(can_encode(OutputFormat::Png, &empty, &opts(75), None));
}

#[test]
fn decode_and_resize() {
    let img = gradient(8, 4);
    let png = imzip::encoders::encode(OutputFormat::Png, &img, &opts(75)).unwrap();
    let back = decode(&png).unwrap();
    assert_eq!((back.width, back.height), (8, 4));
    assert_eq!(back.pixels, img.pixels);
    let same = apply_resize(decode(&png).unwrap(), None, imzip::cli::Filter::Nearest);
    assert_eq!(same.pixels, img.pixels);
    let small = apply_resize(back, Some((4, 2)), imzip::cli::Filter::Triangle);
    assert_eq!((small.width, small.height, small.pixels.len()), (4, 2, 32));
    assert!(matches!(decode(b"not an image"), Err(ImzipError::Decode(_))));
}

#[test]
fn source_metadata_respects_strip_all() {
    let meta = imzip::metadata::Metadata { icc: Some(vec![1, 2, 3]), exif: None, xmp: None };
    let jpeg = imzip::metadata::inject_jpeg(&[0xFF, 0xD8, 0xFF, 0xDA], &meta).unwrap();
    assert_eq!(source_metadata(InputKind::Jpeg, &jpeg, MetaMode::Default), meta);
    assert_eq!(source_metadata(InputKind::Jpeg, &jpeg, MetaMode::StripAll).icc, None);
    assert_eq!(source_metadata(InputKind::Gif, &jpeg, MetaMode::KeepAll).icc, None);
}

#[test]
fn dry_run_plans_without_encoding() {
    let s = settings(|c| c.io.dry_run = true);
    let img = gradient(8, 8);
    match process_decoded(&entry("a.png", None, 1), &s, InputKind::Png, OutputFormat::Png, b"", &img, (16, 16), true, "")
        .unwrap()
    {
        Outcome::DryRun { output, note } => {
            assert_eq!(output, "a_imzip.png");
            assert_eq!(note, "format png, resize 16x16 -> 8x8, quality 75");
        },
        _ => panic!("expected a dry run"),
    }
    let s = settings(|c| {
        c.io.dry_run = true;
        c.compression.target_size = Some(SizeArg { text: "20KB".to_string(), bytes: Some(20_000) });
        c.format.format = Some(OutputFormat::Jpeg);
    });
    match process_decoded(&entry("a.png", None, 1), &s, InputKind::Png, OutputFormat::Jpeg, b"", &img, (8, 8), false, "20.0 KB")
        .unwrap()
    {
        Outcome::DryRun { note, .. } => assert_eq!(note, "format jpeg, size 8x8, quality auto-search <= 20.0 KB"),
        _ => panic!("expected a dry run"),
    }
}

#[test]
fn writes_and_skips_larger_recompress() {
    let img = gradient(16, 16);
    let s = settings(|_| {});
    // a tiny "input" makes a pure recompress larger than the input
    match process_decoded(&entry("a.png", None, 1), &s, InputKind::Png, OutputFormat::Png, b"x", &img, (16, 16), false, "")
        .unwrap()
    {
        Outcome::AlreadyOptimal { output, out_bytes } => {
            assert_eq!(output, "a_imzip.png");
            assert!(out_bytes > 1);
        },
        _ => panic!("expected already optimal"),
    }
    let s = settings(|c| c.io.force = true);
    match process_decoded(&entry("a.png", None, 1), &s, InputKind::Png, OutputFormat::Png, b"x", &img, (16, 16), false, "")
        .unwrap()
    {
        Outcome::Write { output, bytes, quality, target_reached, note } => {
            assert_eq!(output, "a_imzip.png");
            assert_eq!(&bytes[..4], &[0x89, b'P', b'N', b'G']);
            assert_eq!(quality, None);
            assert!(target_reached);
            assert_eq!(note, "format png, size 16x16");
        },
        _ => panic!("expected a write"),
    }
}

#[test]
fn write_note_reports_missed_target() {
    let img = gradient(32, 32);
    let s = settings(|c| {
        c.compression.target_size = Some(SizeArg { text: "10".to_string(), bytes: Some(10) });
        c.format.format = Some(OutputFormat::Jpeg);
    });
    match process_decoded(&entry("a.png", None, 1), &s, InputKind::Png, OutputFormat::Jpeg, b"", &img, (32, 32), false, "")
        .unwrap()
    {
        Outcome::Write { quality, target_reached, note, .. } => {
            assert_eq!(quality, Some(1));
            assert!(!target_reached);
            assert_eq!(note, "format jpeg, size 32x32, quality 1, target size not reached (used lowest quality)");
        },
        _ => panic!("expected a write"),
    }
}

#[test]
fn search_returns_the_encoders_own_bytes() {
    let img = gradient(24, 16);
    let direct = imzip::encoders::encode(OutputFormat::Jpeg, &img, &opts(80)).unwrap();
    let (once, q, reached) = encode_with_search(OutputFormat::Jpeg, &img, &opts(80), None).unwrap();
    assert_eq!((once, q, reached), (direct, None, true));
    let (bytes, q, reached) = encode_with_search(OutputFormat::Jpeg, &img, &opts(80), Some(100_000)).unwrap();
    assert!(reached);
    let q = q.unwrap();
    assert!((1..=100).contains(&q));
    assert_eq!(bytes, imzip::encoders::encode(OutputFormat::Jpeg, &img, &opts(q)).unwrap());
}

#[test]
fn guessed_kinds_follow_the_signature_table() {
    assert_eq!(detect_input_kind("x", &[0x89, b'P', b'N', b'G', 0x0D, 0x0A, 0x1A, 0x0A]), InputKind::Png);
    assert_eq!(detect_input_kind("x", &[0xFF, 0xD8, 0xFF, 0xE0]), InputKind::Jpeg);
    assert_eq!(detect_input_kind("x", b"GIF87a...."), InputKind::Gif);
    assert_eq!(detect_input_kind("x", b"RIFF\x10\0\0\0WEBPVP8 "), InputKind::Webp);
    assert_eq!(detect_input_kind("x", b"\0\0\0\x1cftypavif"), InputKind::Avif);
    // The ICO signature comes first in the table.
    assert_eq!(detect_input_kind("x", b"\0\0\x01\0ftypavif"), InputKind::Other);
    assert_eq!(detect_input_kind("x", b"BM......"), InputKind::Other);
}

#[test]
fn avif_quality_above_100_is_refused() {
    let img = gradient(4, 4);
    assert!(!can_encode(OutputFormat::Avif, &img, &opts(101), None));
    assert!(can_encode(OutputFormat::Avif, &img, &opts(100), None));
}

#[test]
fn target_search_writes_the_encoding_it_reports() {
    let img = gradient(24, 16);
    let s = settings(|c| {
        c.compression.target_size = Some(SizeArg { text: "100000".to_string(), bytes: Some(100_000) });
        c.format.format = Some(OutputFormat::Jpeg);
    });
    match process_decoded(&entry("a.png", None, 1), &s, InputKind::Png, OutputFormat::Jpeg, b"", &img, (24, 16), false, "")
        .unwrap()
    {
        Outcome::Write { bytes, quality, target_reached, .. } => {
            assert!(target_reached);
            let q = quality.unwrap();
            let direct = imzip::encoders::encode(OutputFormat::Jpeg, &img, &opts(q)).unwrap();
            assert_eq!(bytes, direct);
        },
        _ => panic!("expected a write"),
    }
}

#[test]
fn dry_run_writes_nothing() {
    // a.png of 64x32, `-o out --percent 50 --dry-run`: the image to encode
    // is 32x16, and processing plans without encoding or writing.
    let s = settings(|c| {
        c.io.output = Some("out".to_string());
        c.io.dry_run = true;
        c.resize.percent = Some(50f32.to_bits());
    });
    let img = gradient(32, 16);
    match process_decoded(&entry("a.png", None, 1), &s, InputKind::Png, OutputFormat::Png, b"", &img, (64, 32), true, "")
        .unwrap()
    {
        Outcome::DryRun { output, note } => {
            assert_eq!(output, "out/a_imzip.png");
            assert_eq!(note, "format png, resize 64x32 -> 32x16, quality 75");
        },
        _ => panic!("dry-run must not write"),
    }
}

#[test]
fn avif_search_without_target_is_the_encoders_output() {
    let img = gradient(16, 16);
    let (bytes, q, reached) = encode_with_search(OutputFormat::Avif, &img, &opts(60), None).unwrap();
    assert_eq!((q, reached), (None, true));
    assert_eq!(bytes, imzip::encoders::encode(OutputFormat::Avif, &img, &opts(60)).unwrap());
}

#[test]
fn palette_png_is_a_function_of_its_input() {
    let img = gradient(16, 16);
    let mut o = opts(75);
    o.png_colors = Some(8);
    let a = imzip::encoders::encode(OutputFormat::Png, &img, &o).unwrap();
    let b = imzip::encoders::encode(OutputFormat::Png, &img, &o).unwrap();
    assert_eq!(a, b);
}
