# imzip

`imzip` compresses, resizes and converts images in batch (JPEG, PNG, WebP,
AVIF, GIF), keeping or stripping metadata at the byte level.

This crate is written in Verus: the library under `src/` states what each
function does in `requires`/`ensures` contracts over mathematical models and
proves it; `app/` is the command-line program around it.

## Layout

- `src/cli.rs` — values of the command line: output formats, the size
  syntax (`200KB`, `1.5MB`: number and unit), background colours, name
  templates, `--jobs`.
- `src/config.rs` — merging the command line with the config file into
  validated settings (CLI flag > config file > built-in default).
- `src/batch.rs` — discovery rules: glob roots and selection, supported
  extensions, repeats, path order and numbering.
- `src/pipeline.rs` — per-file decisions: input kind, output format, skip
  rules, output paths, name templates, the target-size quality search, and
  the plan for a decoded image.
- `src/resize.rs` — resize requests and the integer part of resizing.
- `src/encoders/` — the encoders (mozjpeg, oxipng/imagequant/png, libwebp,
  ravif, the `image` crate's GIF writer), alpha flattening and palettes.
- `src/metadata/` — ICC/EXIF/XMP extraction and injection for JPEG (APP1,
  multi-chunk APP2), PNG (`iCCP`, `eXIf`, `iTXt`, CRC-32) and WebP (RIFF,
  `VP8X`), with proved round trips.
- `src/report.rs` — batch summary, report order and exit code.
- `src/text.rs`, `src/bytes.rs`, `src/paths.rs`, `src/zlib.rs` — strings,
  big/little-endian bytes, `std::path` operations and zlib streams.
- `app/main.rs` — argument parsing (clap), config files (toml), walking
  directories (walkdir), the parallel batch (rayon, indicatif), the
  floating-point arithmetic of sizes (a target size's byte count, percent
  and megapixel scaling) and printing.
