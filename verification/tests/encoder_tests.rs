//! Encoder smoke tests: an 8x8 RGBA gradient through every encoder must
//! produce non-empty bytes that decode back to 8x8.

use imzip::cli::{ChromaSubsampling, OutputFormat};
use imzip::encoders::{encode, flatten_to_rgb, EncoderOpts, RgbaImage};
use imzip::encoders::png::{indexed_png, palette_chunks};
use imzip::encoders::encoder_result;
use imzip::error::ImzipError;

fn gradient_rgba(w: u32, h: u32) -> RgbaImage {
    let mut pixels = Vec::new();
    for y in 0..h {
        for x in 0..w {
            let n = ((x * 7 + y * 13) % 7) as i32 - 3;
            let clamp = |v: i32| v.clamp(0, 255) as u8;
            pixels.push(clamp(((x * 255) / w) as i32 + n));
            pixels.push(clamp(((y * 255) / h) as i32 - n));
            pixels.push(clamp((((x + y) * 255) / (w + h)) as i32 + n));
            pixels.push(255);
        }
    }
    RgbaImage { width: w, height: h, pixels }
}

fn opts() -> EncoderOpts {
    EncoderOpts {
        quality: 80,
        progressive: true,
        chroma_subsampling: ChromaSubsampling::S420,
        png_compression: 2,
        png_colors: None,
        webp_lossless: false,
        avif_speed: 10,
        background: [255, 255, 255],
    }
}

fn roundtrip(bytes: &[u8], what: &str) {
    let img = image::load_from_memory(bytes).unwrap_or_else(|e| panic!("{what} output should decode: {e}"));
    assert_eq!((img.width(), img.height()), (8, 8), "{what} dimensions");
}

fn avif_dimensions(bytes: &[u8]) -> Option<(u32, u32)> {
    let at = bytes.windows(4).position(|w| w == b"ispe")?;
    let field = |o: usize| bytes.get(at + o..at + o + 4).map(|b| u32::from_be_bytes([b[0], b[1], b[2], b[3]]));
    Some((field(8)?, field(12)?))
}

#[test]
fn jpeg_smoke() {
    let img = gradient_rgba(8, 8);
    let out = encode(OutputFormat::Jpeg, &img, &opts()).unwrap();
    assert!(!out.is_empty());
    assert_eq!(&out[..2], &[0xFF, 0xD8]);
    roundtrip(&out, "jpeg");
}

#[test]
fn png_smoke() {
    let img = gradient_rgba(8, 8);
    let out = encode(OutputFormat::Png, &img, &opts()).unwrap();
    assert!(!out.is_empty());
    assert_eq!(&out[..4], &[0x89, b'P', b'N', b'G']);
    roundtrip(&out, "png");
}

#[test]
fn png_indexed_smoke() {
    let img = gradient_rgba(8, 8);
    let mut o = opts();
    o.png_colors = Some(16);
    let out = encode(OutputFormat::Png, &img, &o).unwrap();
    assert!(!out.is_empty());
    roundtrip(&out, "indexed png");
}

#[test]
fn webp_smoke() {
    let img = gradient_rgba(8, 8);
    let out = encode(OutputFormat::Webp, &img, &opts()).unwrap();
    assert!(!out.is_empty());
    assert_eq!(&out[..4], b"RIFF");
    assert_eq!(&out[8..12], b"WEBP");
    roundtrip(&out, "webp");
}

#[test]
fn webp_lossless_smoke() {
    let img = gradient_rgba(8, 8);
    let mut o = opts();
    o.webp_lossless = true;
    let out = encode(OutputFormat::Webp, &img, &o).unwrap();
    assert!(!out.is_empty());
    roundtrip(&out, "webp lossless");
}

#[test]
fn avif_smoke() {
    let img = gradient_rgba(8, 8);
    let out = encode(OutputFormat::Avif, &img, &opts()).unwrap();
    assert!(out.len() > 100, "avif output suspiciously small: {}", out.len());
    assert_eq!(&out[4..8], b"ftyp", "avif output must start with an ftyp box");
    // The `image` crate decodes AVIF only with the dav1d system library,
    // which this build does not link; the image size is read from the
    // file's `ispe` (image spatial extents) property instead.
    assert_eq!(avif_dimensions(&out), Some((8, 8)), "avif dimensions");
}

#[test]
fn gif_smoke() {
    let img = gradient_rgba(8, 8);
    let out = encode(OutputFormat::Gif, &img, &opts()).unwrap();
    assert!(!out.is_empty());
    assert_eq!(&out[..3], b"GIF");
    roundtrip(&out, "gif");
}

#[test]
fn flatten_blends_onto_background() {
    // opaque, transparent, and half-transparent pixels on a red background
    let img = RgbaImage { width: 3, height: 1, pixels: vec![10, 20, 30, 255, 1, 2, 3, 0, 200, 100, 0, 128] };
    let out = flatten_to_rgb(&img, [255, 0, 0]);
    // blend(c, bg, a) = (c*a + bg*(255-a) + 127) / 255
    assert_eq!(out, vec![10, 20, 30, 255, 0, 0, 227, 50, 0]);
}

#[test]
fn flatten_exact_values() {
    let img = RgbaImage { width: 1, height: 1, pixels: vec![200, 100, 0, 128] };
    let out = flatten_to_rgb(&img, [255, 0, 0]);
    assert_eq!(out, vec![227, 50, 0]);
}

#[test]
fn palette_chunks_trim_trailing_opaque_alpha() {
    let pal = vec![[1, 2, 3, 255], [4, 5, 6, 10], [7, 8, 9, 255], [10, 11, 12, 255]];
    let (plte, trns) = palette_chunks(&pal);
    assert_eq!(plte, vec![1, 2, 3, 4, 5, 6, 7, 8, 9, 10, 11, 12]);
    assert_eq!(trns, vec![255, 10]);
    let opaque = vec![[1, 2, 3, 255]];
    assert_eq!(palette_chunks(&opaque).1, Vec::<u8>::new());
}

#[test]
fn with_quality_changes_only_quality() {
    let o = opts().with_quality(33);
    assert_eq!(o.quality, 33);
    assert!(o.progressive);
    assert_eq!(o.avif_speed, 10);
}

#[test]
fn encoder_errors_name_the_format() {
    // GIF sides are 16-bit: a 65536 pixel wide image cannot be written.
    let img = RgbaImage { width: 65536, height: 1, pixels: vec![255; 65536 * 4] };
    match encode(OutputFormat::Gif, &img, &opts()) {
        Err(imzip::error::ImzipError::Encode { format, .. }) => assert_eq!(format, "gif"),
        other => panic!("unexpected {other:?}"),
    }
}

#[test]
fn error_messages() {
    let e = imzip::error::ImzipError::encode("png", "boom".to_string());
    assert_eq!(e.message(), "failed to encode png: boom");
    assert_eq!(imzip::error::ImzipError::decode("bad".to_string()).message(), "failed to decode image: bad");
    assert_eq!(imzip::error::ImzipError::metadata("m".to_string()).message(), "metadata error: m");
    assert_eq!(imzip::error::ImzipError::invalid("plain".to_string()).message(), "plain");
    let io = imzip::error::ImzipError::Io(std::io::Error::new(std::io::ErrorKind::Other, "disk"));
    assert_eq!(io.message(), "I/O error: disk");
}

#[test]
fn encoded_files_carry_their_format_header() {
    // A non-square image, so that width and height cannot be swapped.
    let img = gradient_rgba(10, 6);
    let jpeg = encode(OutputFormat::Jpeg, &img, &opts()).unwrap();
    assert_eq!(&jpeg[..2], &[0xFF, 0xD8]);
    assert_eq!(&jpeg[jpeg.len() - 2..], &[0xFF, 0xD9]);

    for colors in [None, Some(16)] {
        let mut o = opts();
        o.png_colors = colors;
        let png = encode(OutputFormat::Png, &img, &o).unwrap();
        assert_eq!(&png[..8], &[0x89, b'P', b'N', b'G', 0x0D, 0x0A, 0x1A, 0x0A]);
        assert_eq!(&png[8..16], &[0, 0, 0, 13, b'I', b'H', b'D', b'R']);
        assert_eq!(&png[16..24], &[0, 0, 0, 10, 0, 0, 0, 6]);
    }

    for lossless in [false, true] {
        let mut o = opts();
        o.webp_lossless = lossless;
        let webp = encode(OutputFormat::Webp, &img, &o).unwrap();
        assert_eq!(&webp[..4], b"RIFF");
        assert_eq!(&webp[8..12], b"WEBP");
    }

    let avif = encode(OutputFormat::Avif, &img, &opts()).unwrap();
    assert_eq!(&avif[4..12], b"ftypavif");

    let gif = encode(OutputFormat::Gif, &img, &opts()).unwrap();
    assert_eq!(&gif[..10], &[b'G', b'I', b'F', b'8', b'9', b'a', 10, 0, 6, 0]);
}

#[test]
fn encoder_outcomes_are_reported_as_is() {
    assert_eq!(encoder_result(OutputFormat::Gif, Ok(vec![1, 2])).unwrap(), vec![1, 2]);
    match encoder_result(OutputFormat::Jpeg, Err("boom".to_string())) {
        Err(ImzipError::Encode { format, msg }) => assert_eq!((format, msg.as_str()), ("jpeg", "boom")),
        other => panic!("unexpected {other:?}"),
    }
    let img = gradient_rgba(3, 2);
    match indexed_png(&img, Err("no palette".to_string())) {
        Err(ImzipError::Encode { format, msg }) => assert_eq!((format, msg.as_str()), ("png", "no palette")),
        other => panic!("unexpected {other:?}"),
    }
    let out = indexed_png(&img, Ok((vec![[0, 0, 0, 255], [255, 255, 255, 128]], vec![0, 1, 0, 1, 0, 1]))).unwrap();
    assert_eq!(&out[16..24], &[0, 0, 0, 3, 0, 0, 0, 2]);
    assert!(out.windows(4).any(|w| w == b"tRNS"));
}
