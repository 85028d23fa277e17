//! Merging the command line with the config file.

use imzip::cli::{ChromaSubsampling, Filter, Jobs, OutputFormat};
use imzip::config::{build_spec, resolve, AvifConfig, Cli, FileConfig, JpegConfig, PngConfig, SizeArg, WebpConfig};
use imzip::metadata::MetaMode;
use imzip::resize::ResizeSpec;

fn cli() -> Cli {
    let mut c = Cli::default();
    c.io.inputs = vec!["a.jpg".to_string()];
    c
}

#[test]
fn defaults_apply_when_nothing_is_given() {
    let s = resolve(&cli(), &FileConfig::default(), 6).unwrap();
    assert_eq!(s.quality, 75);
    assert_eq!(s.png_compression, 2);
    assert_eq!(s.avif_speed, 6);
    assert_eq!(s.chroma_subsampling, ChromaSubsampling::S420);
    assert_eq!(s.filter, Filter::Lanczos3);
    assert_eq!(s.background, [255, 255, 255]);
    assert_eq!(s.meta_mode, MetaMode::Default);
    assert_eq!(s.jobs, 6);
    assert!(s.resize.is_none());
    assert!(s.format.is_none());
    assert!(s.target_size.is_none());
    assert!(!s.recursive && !s.dry_run && !s.force && !s.in_place);
}

#[test]
fn cli_wins_over_config_and_config_over_defaults() {
    let mut c = cli();
    c.compression.quality = Some(40);
    let mut cfg = FileConfig::default();
    cfg.quality = Some(90);
    cfg.png = Some(PngConfig { png_compression: Some(5), png_colors: Some(64) });
    cfg.format = Some("WebP".to_string());
    cfg.background = Some("black".to_string());
    cfg.jpeg = Some(JpegConfig { progressive: Some(true), chroma_subsampling: Some("444".to_string()) });
    cfg.webp = Some(WebpConfig { lossless: Some(true) });
    cfg.avif = Some(AvifConfig { speed: Some(3) });
    cfg.filter = Some("Catmull-Rom".to_string());
    cfg.target_size = Some(SizeArg { text: "200KB".to_string(), bytes: Some(200_000) });
    let s = resolve(&c, &cfg, 4).unwrap();
    assert_eq!(s.quality, 40);
    assert_eq!(s.png_compression, 5);
    assert_eq!(s.png_colors, Some(64));
    assert_eq!(s.format, Some(OutputFormat::Webp));
    assert_eq!(s.background, [0, 0, 0]);
    assert!(s.progressive);
    assert_eq!(s.chroma_subsampling, ChromaSubsampling::S444);
    assert!(s.webp_lossless);
    assert_eq!(s.avif_speed, 3);
    assert_eq!(s.filter, Filter::CatmullRom);
    assert_eq!(s.target_size, Some(200_000));
}

#[test]
fn cli_resize_replaces_config_resize_as_a_whole() {
    let mut c = cli();
    c.resize.max_width = Some(300);
    let mut cfg = FileConfig::default();
    cfg.width = Some(100);
    let s = resolve(&c, &cfg, 1).unwrap();
    assert_eq!(s.resize, Some(ResizeSpec::MaxWidth(300)));
    let s = resolve(&cli(), &cfg, 1).unwrap();
    assert_eq!(s.resize, Some(ResizeSpec::Dimensions { width: Some(100), height: None }));
}

#[test]
fn validation_errors_in_order() {
    let mut cfg = FileConfig::default();
    cfg.quality = Some(101);
    assert_eq!(resolve(&cli(), &cfg, 1).unwrap_err(), "config: quality must be 0-100");
    let mut cfg = FileConfig::default();
    cfg.png = Some(PngConfig { png_compression: Some(7), png_colors: None });
    assert_eq!(resolve(&cli(), &cfg, 1).unwrap_err(), "config: png.compression must be 0-6");
    let mut cfg = FileConfig::default();
    cfg.png = Some(PngConfig { png_compression: None, png_colors: Some(1) });
    assert_eq!(resolve(&cli(), &cfg, 1).unwrap_err(), "config: png.colors must be 2-256");
    let mut cfg = FileConfig::default();
    cfg.avif = Some(AvifConfig { speed: Some(0) });
    assert_eq!(resolve(&cli(), &cfg, 1).unwrap_err(), "config: avif.speed must be 1-10");
    let mut cfg = FileConfig::default();
    cfg.target_size = Some(SizeArg { text: "0".to_string(), bytes: Some(0) });
    assert_eq!(resolve(&cli(), &cfg, 1).unwrap_err(), "target size must be greater than 0");
    let mut cfg = FileConfig::default();
    cfg.format = Some("bmp".to_string());
    assert_eq!(
        resolve(&cli(), &cfg, 1).unwrap_err(),
        "invalid format 'bmp' (allowed: jpeg, png, webp, avif, gif)"
    );
    let mut cfg = FileConfig::default();
    cfg.filter = Some("cubic".to_string());
    assert_eq!(
        resolve(&cli(), &cfg, 1).unwrap_err(),
        "invalid filter 'cubic' (allowed: nearest, triangle, catmull-rom, lanczos3)"
    );
    let mut cfg = FileConfig::default();
    cfg.jpeg = Some(JpegConfig { progressive: None, chroma_subsampling: Some("411".to_string()) });
    assert_eq!(
        resolve(&cli(), &cfg, 1).unwrap_err(),
        "invalid chroma_subsampling '411' (allowed: 444, 422, 420)"
    );
}

#[test]
fn conflicts_are_rejected() {
    let mut c = cli();
    c.metadata.strip_all_metadata = true;
    let mut cfg = FileConfig::default();
    cfg.keep_metadata = Some(true);
    assert_eq!(resolve(&c, &cfg, 1).unwrap_err(), "--strip-all-metadata conflicts with --keep-metadata");

    let mut c = cli();
    c.diag.verbose = true;
    let mut cfg = FileConfig::default();
    cfg.quiet = Some(true);
    assert_eq!(resolve(&c, &cfg, 1).unwrap_err(), "--verbose conflicts with --quiet");

    let mut c = cli();
    c.io.in_place = true;
    let mut cfg = FileConfig::default();
    cfg.output = Some("out".to_string());
    assert_eq!(resolve(&c, &cfg, 1).unwrap_err(), "--in-place conflicts with --output");

    let mut cfg = FileConfig::default();
    cfg.name_template = Some("{bogus}".to_string());
    assert!(resolve(&cli(), &cfg, 1).is_err());
}

#[test]
fn metadata_modes() {
    let mut c = cli();
    c.metadata.strip_all_metadata = true;
    assert_eq!(resolve(&c, &FileConfig::default(), 1).unwrap().meta_mode, MetaMode::StripAll);
    let mut cfg = FileConfig::default();
    cfg.keep_metadata = Some(true);
    assert_eq!(resolve(&cli(), &cfg, 1).unwrap().meta_mode, MetaMode::KeepAll);
}

#[test]
fn job_counts() {
    let mut c = cli();
    c.diag.sequential = true;
    c.diag.jobs = Some(Jobs::N(8));
    assert_eq!(resolve(&c, &FileConfig::default(), 12).unwrap().jobs, 1);
    let mut c = cli();
    c.diag.jobs = Some(Jobs::Auto);
    assert_eq!(resolve(&c, &FileConfig::default(), 12).unwrap().jobs, 12);
    let mut cfg = FileConfig::default();
    cfg.jobs = Some(3);
    assert_eq!(resolve(&cli(), &cfg, 12).unwrap().jobs, 3);
    cfg.jobs = Some(0);
    assert_eq!(resolve(&cli(), &cfg, 12).unwrap().jobs, 12);
}

#[test]
fn build_spec_modes() {
    assert_eq!(build_spec(None, None, None, None, None, None, None, None, "cli").unwrap(), None);
    assert_eq!(
        build_spec(Some(0), None, None, None, None, None, None, None, "cli").unwrap_err(),
        "cli: width/height must be at least 1"
    );
    // width/height and another mode are two modes
    assert_eq!(
        build_spec(Some(100), None, Some(50f32.to_bits()), None, None, None, None, None, "config").unwrap_err(),
        "config: conflicting resize options (pick one mode)"
    );
    assert_eq!(
        build_spec(Some(10), Some(20), None, None, None, None, None, None, "cli").unwrap(),
        Some(ResizeSpec::Dimensions { width: Some(10), height: Some(20) })
    );
    assert_eq!(
        build_spec(None, None, Some(50f32.to_bits()), Some(100), None, None, None, None, "config").unwrap_err(),
        "config: conflicting resize options (pick one mode)"
    );
    assert_eq!(
        build_spec(None, None, Some((-1f32).to_bits()), None, None, None, None, None, "cli").unwrap_err(),
        "cli: percent must be a positive number"
    );
    assert_eq!(
        build_spec(None, None, None, None, None, None, None, Some(f32::NAN.to_bits()), "cli").unwrap_err(),
        "cli: max_megapixels must be a positive number"
    );
    assert_eq!(
        build_spec(None, None, None, None, None, Some(640), None, None, "cli").unwrap(),
        Some(ResizeSpec::LongestEdge(640))
    );
}
