//! Merging the command line with the config file (`imzip.toml` / `.imziprc`
//! / `.imzip.toml`) into validated settings. Precedence: CLI flag > config
//! file > built-in default.

use vstd::prelude::*;
use vstd::string::*;
use crate::cli::{ChromaSubsampling, Filter, Jobs, OutputFormat, split_size, size_split_spec, size_message, SizeFault, parse_background, background_spec, validate_template, template_fault, template_message};
use crate::metadata::MetaMode;
use crate::resize::{ResizeSpec, positive_finite_f32, is_positive_finite_f32};
use crate::text::{lower, chars_of, lower_eq, string_from};
use crate::paths::opt_str;

verus! {

broadcast use vstd::string::group_string_axioms;

/// Input/output options of the command line.
#[derive(Debug, Clone, Default)]
pub struct IoOpts {
    pub inputs: Vec<String>,
    pub recursive: bool,
    pub output: Option<String>,
    pub in_place: bool,
    pub name_template: Option<String>,
    pub dry_run: bool,
    pub force: bool,
}

/// Resize options; `percent` and `max_megapixels` are `f32` bit patterns.
#[derive(Debug, Clone, Default)]
pub struct ResizeOpts {
    pub width: Option<u32>,
    pub height: Option<u32>,
    pub percent: Option<u32>,
    pub max_width: Option<u32>,
    pub max_height: Option<u32>,
    pub longest_edge: Option<u32>,
    pub shortest_edge: Option<u32>,
    pub max_megapixels: Option<u32>,
    pub allow_upscale: bool,
    pub filter: Option<Filter>,
}

/// A size given for the target (`--target-size`, or `target_size` in the
/// config file): its text, and the byte count it comes to. That count is the
/// text's number parsed as an `f64`, times its unit, rounded: floating-point
/// arithmetic, which the caller does (`None` where the text is not a size).
#[derive(Debug, Clone)]
pub struct SizeArg {
    pub text: String,
    pub bytes: Option<u64>,
}

/// Compression options.
#[derive(Debug, Clone, Default)]
pub struct CompressionOpts {
    pub quality: Option<u8>,
    pub progressive: bool,
    pub chroma_subsampling: Option<ChromaSubsampling>,
    pub png_compression: Option<u8>,
    pub png_colors: Option<u16>,
    pub webp_lossless: bool,
    pub avif_speed: Option<u8>,
    pub target_size: Option<SizeArg>,
}

/// Format options.
#[derive(Debug, Clone, Default)]
pub struct FormatOpts {
    pub format: Option<OutputFormat>,
    pub background: Option<[u8; 3]>,
}

/// Metadata options.
#[derive(Debug, Clone, Default)]
pub struct MetadataOpts {
    pub strip_all_metadata: bool,
    pub keep_metadata: bool,
}

/// Config and diagnostics options.
#[derive(Debug, Clone, Default)]
pub struct DiagOpts {
    pub config: Option<String>,
    pub jobs: Option<Jobs>,
    pub sequential: bool,
    pub verbose: bool,
    pub quiet: bool,
    pub no_progress: bool,
}

/// The parsed command line.
#[derive(Debug, Clone, Default)]
pub struct Cli {
    pub io: IoOpts,
    pub resize: ResizeOpts,
    pub compression: CompressionOpts,
    pub format: FormatOpts,
    pub metadata: MetadataOpts,
    pub diag: DiagOpts,
}

#[derive(Debug, Clone, Default)]
pub struct JpegConfig {
    pub progressive: Option<bool>,
    pub chroma_subsampling: Option<String>,
}

#[derive(Debug, Clone, Default)]
pub struct PngConfig {
    pub png_compression: Option<u8>,
    pub png_colors: Option<u16>,
}

#[derive(Debug, Clone, Default)]
pub struct WebpConfig {
    pub lossless: Option<bool>,
}

#[derive(Debug, Clone, Default)]
pub struct AvifConfig {
    pub speed: Option<u8>,
}

/// The config file's content; every field optional. `percent` and
/// `max_megapixels` are `f32` bit patterns.
#[derive(Debug, Clone, Default)]
pub struct FileConfig {
    pub recursive: Option<bool>,
    pub output: Option<String>,
    pub in_place: Option<bool>,
    pub name_template: Option<String>,
    pub dry_run: Option<bool>,
    pub force: Option<bool>,
    pub jobs: Option<usize>,
    pub verbose: Option<bool>,
    pub quiet: Option<bool>,
    pub no_progress: Option<bool>,
    pub width: Option<u32>,
    pub height: Option<u32>,
    pub percent: Option<u32>,
    pub max_width: Option<u32>,
    pub max_height: Option<u32>,
    pub longest_edge: Option<u32>,
    pub shortest_edge: Option<u32>,
    pub max_megapixels: Option<u32>,
    pub allow_upscale: Option<bool>,
    pub filter: Option<String>,
    pub quality: Option<u8>,
    pub target_size: Option<SizeArg>,
    pub format: Option<String>,
    pub background: Option<String>,
    pub strip_all_metadata: Option<bool>,
    pub keep_metadata: Option<bool>,
    pub jpeg: Option<JpegConfig>,
    pub png: Option<PngConfig>,
    pub webp: Option<WebpConfig>,
    pub avif: Option<AvifConfig>,
}

/// Fully resolved settings: CLI + config + defaults, all validated.
#[derive(Debug, Clone)]
pub struct Settings {
    pub recursive: bool,
    pub output: Option<String>,
    pub in_place: bool,
    pub name_template: Option<String>,
    pub dry_run: bool,
    pub force: bool,
    pub jobs: usize,
    pub verbose: bool,
    pub quiet: bool,
    pub no_progress: bool,
    pub resize: Option<ResizeSpec>,
    pub allow_upscale: bool,
    pub filter: Filter,
    pub quality: u8,
    pub progressive: bool,
    pub chroma_subsampling: ChromaSubsampling,
    pub png_compression: u8,
    pub png_colors: Option<u16>,
    pub webp_lossless: bool,
    pub avif_speed: u8,
    pub target_size: Option<u64>,
    pub format: Option<OutputFormat>,
    pub background: [u8; 3],
    pub meta_mode: MetaMode,
}

/// The content of [`Settings`], strings as character sequences.
pub struct SettingsView {
    pub recursive: bool,
    pub output: Option<Seq<char>>,
    pub in_place: bool,
    pub name_template: Option<Seq<char>>,
    pub dry_run: bool,
    pub force: bool,
    pub jobs: usize,
    pub verbose: bool,
    pub quiet: bool,
    pub no_progress: bool,
    pub resize: Option<ResizeSpec>,
    pub allow_upscale: bool,
    pub filter: Filter,
    pub quality: u8,
    pub progressive: bool,
    pub chroma_subsampling: ChromaSubsampling,
    pub png_compression: u8,
    pub png_colors: Option<u16>,
    pub webp_lossless: bool,
    pub avif_speed: u8,
    pub target_size: Option<u64>,
    pub format: Option<OutputFormat>,
    pub background: Seq<u8>,
    pub meta_mode: MetaMode,
}

impl View for Settings {
    type V = SettingsView;

    open spec fn view(&self) -> SettingsView {
        SettingsView {
            recursive: self.recursive,
            output: opt_str(self.output),
            in_place: self.in_place,
            name_template: opt_str(self.name_template),
            dry_run: self.dry_run,
            force: self.force,
            jobs: self.jobs,
            verbose: self.verbose,
            quiet: self.quiet,
            no_progress: self.no_progress,
            resize: self.resize,
            allow_upscale: self.allow_upscale,
            filter: self.filter,
            quality: self.quality,
            progressive: self.progressive,
            chroma_subsampling: self.chroma_subsampling,
            png_compression: self.png_compression,
            png_colors: self.png_colors,
            webp_lossless: self.webp_lossless,
            avif_speed: self.avif_speed,
            target_size: self.target_size,
            format: self.format,
            background: self.background@,
            meta_mode: self.meta_mode,
        }
    }
}

pub open spec fn or_else<T>(a: Option<T>, b: Option<T>) -> Option<T> {
    if a is Some { a } else { b }
}

pub open spec fn flag(b: Option<bool>) -> bool {
    match b {
        Some(x) => x,
        None => false,
    }
}

fn flag_exec(b: Option<bool>) -> (r: bool)
    ensures
        r == flag(b),
{
    match b {
        Some(x) => x,
        None => false,
    }
}

// ---------------------------------------------------------------- enum values

pub open spec fn filter_from(v: Seq<char>) -> Option<Filter> {
    let l = lower(v);
    if l == "nearest"@ {
        Some(Filter::Nearest)
    } else if l == "triangle"@ {
        Some(Filter::Triangle)
    } else if l == "catmull-rom"@ {
        Some(Filter::CatmullRom)
    } else if l == "lanczos3"@ {
        Some(Filter::Lanczos3)
    } else {
        None
    }
}

pub open spec fn chroma_from(v: Seq<char>) -> Option<ChromaSubsampling> {
    if v == "444"@ {
        Some(ChromaSubsampling::S444)
    } else if v == "422"@ {
        Some(ChromaSubsampling::S422)
    } else if v == "420"@ {
        Some(ChromaSubsampling::S420)
    } else {
        None
    }
}

pub open spec fn format_from(v: Seq<char>) -> Option<OutputFormat> {
    let l = lower(v);
    if l == "jpeg"@ {
        Some(OutputFormat::Jpeg)
    } else if l == "png"@ {
        Some(OutputFormat::Png)
    } else if l == "webp"@ {
        Some(OutputFormat::Webp)
    } else if l == "avif"@ {
        Some(OutputFormat::Avif)
    } else if l == "gif"@ {
        Some(OutputFormat::Gif)
    } else {
        None
    }
}

/// The message for a value that names no variant.
pub open spec fn enum_message(what: Seq<char>, v: Seq<char>, allowed: Seq<char>) -> Seq<char> {
    "invalid "@ + what + " '"@ + v + "' (allowed: "@ + allowed + ")"@
}

fn enum_error(what: &str, v: &str, allowed: &str) -> (msg: String)
    ensures
        msg@ == enum_message(what@, v@, allowed@),
{
    let mut msg = string_from("invalid ");
    msg.append(what);
    msg.append(" '");
    msg.append(v);
    msg.append("' (allowed: ");
    msg.append(allowed);
    msg.append(")");
    msg
}

/// A filter name, ASCII case-insensitive.
pub fn parse_filter(v: &str) -> (r: Result<Filter, String>)
    ensures
        r is Ok <==> filter_from(v@) is Some,
        r matches Ok(f) ==> filter_from(v@) == Some(f),
        r matches Err(m) ==> m@ == enum_message("filter"@, v@, "nearest, triangle, catmull-rom, lanczos3"@),
{
    let c = chars_of(v);
    let n = c.len();
    assert(c@.subrange(0, n as int) =~= c@);
    if lower_eq(&c, 0, n, "nearest") {
        Ok(Filter::Nearest)
    } else if lower_eq(&c, 0, n, "triangle") {
        Ok(Filter::Triangle)
    } else if lower_eq(&c, 0, n, "catmull-rom") {
        Ok(Filter::CatmullRom)
    } else if lower_eq(&c, 0, n, "lanczos3") {
        Ok(Filter::Lanczos3)
    } else {
        Err(enum_error("filter", v, "nearest, triangle, catmull-rom, lanczos3"))
    }
}

/// A chroma subsampling name: `444`, `422` or `420`.
pub fn parse_chroma(v: &str) -> (r: Result<ChromaSubsampling, String>)
    ensures
        r is Ok <==> chroma_from(v@) is Some,
        r matches Ok(f) ==> chroma_from(v@) == Some(f),
        r matches Err(m) ==> m@ == enum_message("chroma_subsampling"@, v@, "444, 422, 420"@),
{
    let c = chars_of(v);
    let n = c.len();
    assert(c@.subrange(0, n as int) =~= c@);
    if crate::text::chars_eq(&c, 0, n, "444") {
        Ok(ChromaSubsampling::S444)
    } else if crate::text::chars_eq(&c, 0, n, "422") {
        Ok(ChromaSubsampling::S422)
    } else if crate::text::chars_eq(&c, 0, n, "420") {
        Ok(ChromaSubsampling::S420)
    } else {
        Err(enum_error("chroma_subsampling", v, "444, 422, 420"))
    }
}

/// An output format name, ASCII case-insensitive.
pub fn parse_format(v: &str) -> (r: Result<OutputFormat, String>)
    ensures
        r is Ok <==> format_from(v@) is Some,
        r matches Ok(f) ==> format_from(v@) == Some(f),
        r matches Err(m) ==> m@ == enum_message("format"@, v@, "jpeg, png, webp, avif, gif"@),
{
    let c = chars_of(v);
    let n = c.len();
    assert(c@.subrange(0, n as int) =~= c@);
    if lower_eq(&c, 0, n, "jpeg") {
        Ok(OutputFormat::Jpeg)
    } else if lower_eq(&c, 0, n, "png") {
        Ok(OutputFormat::Png)
    } else if lower_eq(&c, 0, n, "webp") {
        Ok(OutputFormat::Webp)
    } else if lower_eq(&c, 0, n, "avif") {
        Ok(OutputFormat::Avif)
    } else if lower_eq(&c, 0, n, "gif") {
        Ok(OutputFormat::Gif)
    } else {
        Err(enum_error("format", v, "jpeg, png, webp, avif, gif"))
    }
}

// ---------------------------------------------------------------- resize

/// The resize modes given, in the order they are checked.
pub open spec fn resize_modes(
    percent: Option<u32>,
    max_width: Option<u32>,
    max_height: Option<u32>,
    longest_edge: Option<u32>,
    shortest_edge: Option<u32>,
    max_megapixels: Option<u32>,
) -> Seq<ResizeSpec> {
    (match percent { Some(p) => seq![ResizeSpec::Percent(p)], None => seq![] })
        + (match max_width { Some(m) => seq![ResizeSpec::MaxWidth(m)], None => seq![] })
        + (match max_height { Some(m) => seq![ResizeSpec::MaxHeight(m)], None => seq![] })
        + (match longest_edge { Some(m) => seq![ResizeSpec::LongestEdge(m)], None => seq![] })
        + (match shortest_edge { Some(m) => seq![ResizeSpec::ShortestEdge(m)], None => seq![] })
        + (match max_megapixels { Some(m) => seq![ResizeSpec::MaxMegapixels(m)], None => seq![] })
}

/// The resize request from loose fields (`source` names them in messages):
/// width/height form one mode, each other field one more; two modes or more
/// conflict.
pub open spec fn spec_build(
    width: Option<u32>,
    height: Option<u32>,
    percent: Option<u32>,
    max_width: Option<u32>,
    max_height: Option<u32>,
    longest_edge: Option<u32>,
    shortest_edge: Option<u32>,
    max_megapixels: Option<u32>,
    source: Seq<char>,
) -> Result<Option<ResizeSpec>, Seq<char>> {
    if width is Some || height is Some {
        if width == Some(0u32) || height == Some(0u32) {
            Err(source + ": width/height must be at least 1"@)
        } else if resize_modes(percent, max_width, max_height, longest_edge, shortest_edge, max_megapixels).len() > 0 {
            Err(source + ": conflicting resize options (pick one mode)"@)
        } else {
            Ok(Some(ResizeSpec::Dimensions { width, height }))
        }
    } else if percent matches Some(p) && !positive_finite_f32(p) {
        Err(source + ": percent must be a positive number"@)
    } else if max_megapixels matches Some(m) && !positive_finite_f32(m) {
        Err(source + ": max_megapixels must be a positive number"@)
    } else {
        let modes = resize_modes(percent, max_width, max_height, longest_edge, shortest_edge, max_megapixels);
        if modes.len() > 1 {
            Err(source + ": conflicting resize options (pick one mode)"@)
        } else if modes.len() == 1 {
            Ok(Some(modes[0]))
        } else {
            Ok(None)
        }
    }
}

fn source_message(source: &str, rest: &str) -> (m: String)
    ensures
        m@ == source@ + rest@,
{
    let mut m = string_from(source);
    m.append(rest);
    m
}

/// Builds a resize request from loose fields; errors when several modes are set.
pub fn build_spec(
    width: Option<u32>,
    height: Option<u32>,
    percent: Option<u32>,
    max_width: Option<u32>,
    max_height: Option<u32>,
    longest_edge: Option<u32>,
    shortest_edge: Option<u32>,
    max_megapixels: Option<u32>,
    source: &str,
) -> (r: Result<Option<ResizeSpec>, String>)
    ensures
        ({
            let s = spec_build(width, height, percent, max_width, max_height, longest_edge, shortest_edge, max_megapixels, source@);
            &&& (r is Ok <==> s is Ok)
            &&& (r matches Ok(x) ==> s == Ok::<Option<ResizeSpec>, Seq<char>>(x))
            &&& (r matches Err(m) ==> s == Err::<Option<ResizeSpec>, Seq<char>>(m@))
        }),
{
    if width.is_some() || height.is_some() {
        if width == Some(0u32) || height == Some(0u32) {
            return Err(source_message(source, ": width/height must be at least 1"));
        }
        if percent.is_some() || max_width.is_some() || max_height.is_some() || longest_edge.is_some()
            || shortest_edge.is_some() || max_megapixels.is_some() {
            return Err(source_message(source, ": conflicting resize options (pick one mode)"));
        }
        return Ok(Some(ResizeSpec::Dimensions { width, height }));
    }
    let mut modes: Vec<ResizeSpec> = Vec::new();
    if let Some(p) = percent {
        if !is_positive_finite_f32(p) {
            return Err(source_message(source, ": percent must be a positive number"));
        }
        modes.push(ResizeSpec::Percent(p));
    }
    if let Some(m) = max_width {
        modes.push(ResizeSpec::MaxWidth(m));
    }
    if let Some(m) = max_height {
        modes.push(ResizeSpec::MaxHeight(m));
    }
    if let Some(m) = longest_edge {
        modes.push(ResizeSpec::LongestEdge(m));
    }
    if let Some(m) = shortest_edge {
        modes.push(ResizeSpec::ShortestEdge(m));
    }
    if let Some(mp) = max_megapixels {
        if !is_positive_finite_f32(mp) {
            return Err(source_message(source, ": max_megapixels must be a positive number"));
        }
        modes.push(ResizeSpec::MaxMegapixels(mp));
    }
    assert(modes@ =~= resize_modes(percent, max_width, max_height, longest_edge, shortest_edge, max_megapixels));
    if modes.len() > 1 {
        return Err(source_message(source, ": conflicting resize options (pick one mode)"));
    }
    if modes.len() == 1 {
        Ok(Some(modes[0]))
    } else {
        Ok(None)
    }
}


// ---------------------------------------------------------------- merging

/// Whether an exec result agrees with a spec result, messages by their text.
pub open spec fn agrees<T>(r: Result<T, String>, s: Result<T, Seq<char>>) -> bool {
    match r {
        Ok(x) => s == Ok::<T, Seq<char>>(x),
        Err(m) => s == Err::<T, Seq<char>>(m@),
    }
}

pub open spec fn err_of<T>(r: Result<T, Seq<char>>) -> Option<Seq<char>> {
    match r {
        Ok(_) => None,
        Err(e) => Some(e),
    }
}

pub open spec fn opt_or<T>(a: Option<T>, b: Option<T>, d: T) -> T {
    match or_else(a, b) {
        Some(x) => x,
        None => d,
    }
}

/// The resize request: the command line's as a whole when it gives one,
/// else the config file's.
pub open spec fn resize_stage(cli: Cli, cfg: FileConfig) -> Result<Option<ResizeSpec>, Seq<char>> {
    let r = cli.resize;
    match spec_build(r.width, r.height, r.percent, r.max_width, r.max_height, r.longest_edge, r.shortest_edge, r.max_megapixels, "cli"@) {
        Err(e) => Err(e),
        Ok(Some(s)) => Ok(Some(s)),
        Ok(None) => spec_build(cfg.width, cfg.height, cfg.percent, cfg.max_width, cfg.max_height, cfg.longest_edge, cfg.shortest_edge, cfg.max_megapixels, "config"@),
    }
}

pub open spec fn filter_stage(cli: Cli, cfg: FileConfig) -> Result<Filter, Seq<char>> {
    match cli.resize.filter {
        Some(f) => Ok(f),
        None => match cfg.filter {
            Some(s) => match filter_from(s@) {
                Some(f) => Ok(f),
                None => Err(enum_message("filter"@, s@, "nearest, triangle, catmull-rom, lanczos3"@)),
            },
            None => Ok(Filter::Lanczos3),
        },
    }
}

pub open spec fn quality_stage(cli: Cli, cfg: FileConfig) -> Result<u8, Seq<char>> {
    let q = opt_or(cli.compression.quality, cfg.quality, 75u8);
    if q > 100 { Err("config: quality must be 0-100"@) } else { Ok(q) }
}

pub open spec fn cfg_jpeg(cfg: FileConfig) -> JpegConfig {
    match cfg.jpeg { Some(j) => j, None => JpegConfig { progressive: None, chroma_subsampling: None } }
}

pub open spec fn cfg_png(cfg: FileConfig) -> PngConfig {
    match cfg.png { Some(p) => p, None => PngConfig { png_compression: None, png_colors: None } }
}

pub open spec fn cfg_webp_lossless(cfg: FileConfig) -> bool {
    match cfg.webp { Some(w) => flag(w.lossless), None => false }
}

pub open spec fn cfg_avif_speed(cfg: FileConfig) -> Option<u8> {
    match cfg.avif { Some(a) => a.speed, None => None }
}

pub open spec fn chroma_stage(cli: Cli, cfg: FileConfig) -> Result<ChromaSubsampling, Seq<char>> {
    match cli.compression.chroma_subsampling {
        Some(c) => Ok(c),
        None => match cfg_jpeg(cfg).chroma_subsampling {
            Some(s) => match chroma_from(s@) {
                Some(c) => Ok(c),
                None => Err(enum_message("chroma_subsampling"@, s@, "444, 422, 420"@)),
            },
            None => Ok(ChromaSubsampling::S420),
        },
    }
}

pub open spec fn png_compression_stage(cli: Cli, cfg: FileConfig) -> Result<u8, Seq<char>> {
    let c = opt_or(cli.compression.png_compression, cfg_png(cfg).png_compression, 2u8);
    if c > 6 { Err("config: png.compression must be 0-6"@) } else { Ok(c) }
}

pub open spec fn png_colors_stage(cli: Cli, cfg: FileConfig) -> Result<Option<u16>, Seq<char>> {
    let c = or_else(cli.compression.png_colors, cfg_png(cfg).png_colors);
    match c {
        Some(n) => if 2 <= n <= 256 { Ok(c) } else { Err("config: png.colors must be 2-256"@) },
        None => Ok(c),
    }
}

pub open spec fn avif_speed_stage(cli: Cli, cfg: FileConfig) -> Result<u8, Seq<char>> {
    let s = opt_or(cli.compression.avif_speed, cfg_avif_speed(cfg), 6u8);
    if 1 <= s <= 10 { Ok(s) } else { Err("config: avif.speed must be 1-10"@) }
}

pub open spec fn target_stage(cli: Cli, cfg: FileConfig) -> Result<Option<u64>, Seq<char>> {
    match or_else(cli.compression.target_size, cfg.target_size) {
        Some(a) => match size_split_spec(a.text@) {
            Err(f) => Err(size_message(a.text@, f)),
            Ok(_) => match a.bytes {
                Some(n) => if n == 0 { Err("target size must be greater than 0"@) } else { Ok(Some(n)) },
                None => Err(size_message(a.text@, SizeFault::Infinite)),
            },
        },
        None => Ok(None),
    }
}

pub open spec fn format_stage(cli: Cli, cfg: FileConfig) -> Result<Option<OutputFormat>, Seq<char>> {
    match cli.format.format {
        Some(f) => Ok(Some(f)),
        None => match cfg.format {
            Some(s) => match format_from(s@) {
                Some(f) => Ok(Some(f)),
                None => Err(enum_message("format"@, s@, "jpeg, png, webp, avif, gif"@)),
            },
            None => Ok(None),
        },
    }
}

pub open spec fn background_message(s: Seq<char>) -> Seq<char> {
    "invalid color '"@ + s + "': expected #RRGGBB or one of white, black, red, green, blue"@
}

pub open spec fn background_stage(cli: Cli, cfg: FileConfig) -> Result<Seq<u8>, Seq<char>> {
    match cli.format.background {
        Some(b) => Ok(b@),
        None => match cfg.background {
            Some(s) => match background_spec(s@) {
                Some(b) => Ok(b),
                None => Err(background_message(s@)),
            },
            None => Ok(seq![0xFFu8, 0xFF, 0xFF]),
        },
    }
}

pub open spec fn strip_all_of(cli: Cli, cfg: FileConfig) -> bool {
    cli.metadata.strip_all_metadata || flag(cfg.strip_all_metadata)
}

pub open spec fn keep_of(cli: Cli, cfg: FileConfig) -> bool {
    cli.metadata.keep_metadata || flag(cfg.keep_metadata)
}

pub open spec fn meta_stage(cli: Cli, cfg: FileConfig) -> Result<MetaMode, Seq<char>> {
    if strip_all_of(cli, cfg) && keep_of(cli, cfg) {
        Err("--strip-all-metadata conflicts with --keep-metadata"@)
    } else if strip_all_of(cli, cfg) {
        Ok(MetaMode::StripAll)
    } else if keep_of(cli, cfg) {
        Ok(MetaMode::KeepAll)
    } else {
        Ok(MetaMode::Default)
    }
}

pub open spec fn verbose_of(cli: Cli, cfg: FileConfig) -> bool {
    cli.diag.verbose || flag(cfg.verbose)
}

pub open spec fn quiet_of(cli: Cli, cfg: FileConfig) -> bool {
    cli.diag.quiet || flag(cfg.quiet)
}

pub open spec fn output_of(cli: Cli, cfg: FileConfig) -> Option<Seq<char>> {
    or_else(opt_str(cli.io.output), opt_str(cfg.output))
}

pub open spec fn in_place_of(cli: Cli, cfg: FileConfig) -> bool {
    cli.io.in_place || flag(cfg.in_place)
}

pub open spec fn template_of(cli: Cli, cfg: FileConfig) -> Option<Seq<char>> {
    or_else(opt_str(cli.io.name_template), opt_str(cfg.name_template))
}

pub open spec fn template_stage(cli: Cli, cfg: FileConfig) -> Option<Seq<char>> {
    match template_of(cli, cfg) {
        Some(t) => match template_fault(t) {
            Some(f) => Some(template_message(f)),
            None => None,
        },
        None => None,
    }
}

/// The worker count: 1 when sequential; the command line's count, or all
/// cores for `auto`; else the config file's count when at least 1; else all
/// cores.
pub open spec fn jobs_of(cli: Cli, cfg: FileConfig, cores: usize) -> usize {
    if cli.diag.sequential {
        1
    } else {
        match cli.diag.jobs {
            Some(Jobs::Auto) => cores,
            Some(Jobs::N(n)) => n,
            None => match cfg.jobs {
                Some(n) => if n >= 1 { n } else { cores },
                None => cores,
            },
        }
    }
}

/// The first check that fails, in the order they are made.
pub open spec fn first_error(cli: Cli, cfg: FileConfig) -> Option<Seq<char>> {
    or_else(err_of(resize_stage(cli, cfg)),
    or_else(err_of(filter_stage(cli, cfg)),
    or_else(err_of(quality_stage(cli, cfg)),
    or_else(err_of(chroma_stage(cli, cfg)),
    or_else(err_of(png_compression_stage(cli, cfg)),
    or_else(err_of(png_colors_stage(cli, cfg)),
    or_else(err_of(avif_speed_stage(cli, cfg)),
    or_else(err_of(target_stage(cli, cfg)),
    or_else(err_of(format_stage(cli, cfg)),
    or_else(err_of(background_stage(cli, cfg)),
    or_else(err_of(meta_stage(cli, cfg)),
    or_else(if verbose_of(cli, cfg) && quiet_of(cli, cfg) { Some("--verbose conflicts with --quiet"@) } else { None },
    or_else(if output_of(cli, cfg) is Some && in_place_of(cli, cfg) { Some("--in-place conflicts with --output"@) } else { None },
    template_stage(cli, cfg))))))))))))))
}

/// The settings that the command line and the config file give, when no
/// check fails.
pub open spec fn settings_of(cli: Cli, cfg: FileConfig, cores: usize) -> SettingsView {
    SettingsView {
        recursive: cli.io.recursive || flag(cfg.recursive),
        output: output_of(cli, cfg),
        in_place: in_place_of(cli, cfg),
        name_template: template_of(cli, cfg),
        dry_run: cli.io.dry_run || flag(cfg.dry_run),
        force: cli.io.force || flag(cfg.force),
        jobs: jobs_of(cli, cfg, cores),
        verbose: verbose_of(cli, cfg),
        quiet: quiet_of(cli, cfg),
        no_progress: cli.diag.no_progress || flag(cfg.no_progress),
        resize: resize_stage(cli, cfg)->Ok_0,
        allow_upscale: cli.resize.allow_upscale || flag(cfg.allow_upscale),
        filter: filter_stage(cli, cfg)->Ok_0,
        quality: quality_stage(cli, cfg)->Ok_0,
        progressive: cli.compression.progressive || flag(cfg_jpeg(cfg).progressive),
        chroma_subsampling: chroma_stage(cli, cfg)->Ok_0,
        png_compression: png_compression_stage(cli, cfg)->Ok_0,
        png_colors: png_colors_stage(cli, cfg)->Ok_0,
        webp_lossless: cli.compression.webp_lossless || cfg_webp_lossless(cfg),
        avif_speed: avif_speed_stage(cli, cfg)->Ok_0,
        target_size: target_stage(cli, cfg)->Ok_0,
        format: format_stage(cli, cfg)->Ok_0,
        background: background_stage(cli, cfg)->Ok_0,
        meta_mode: meta_stage(cli, cfg)->Ok_0,
    }
}

/// What resolving gives: the first failing check's message, else the settings.
pub open spec fn resolve_spec(cli: Cli, cfg: FileConfig, cores: usize) -> Result<SettingsView, Seq<char>> {
    match first_error(cli, cfg) {
        Some(e) => Err(e),
        None => Ok(settings_of(cli, cfg, cores)),
    }
}


/// Precedence: a value given on the command line wins over the config
/// file's, which wins over the built-in default (quality 75, PNG preset 2,
/// AVIF speed 6, 4:2:0, white background, the input's own format, no output
/// directory, all cores; one worker with `--sequential`, and a config job
/// count below 1 means all cores).
pub proof fn lemma_precedence(cli: Cli, cfg: FileConfig, cores: usize)
    requires
        resolve_spec(cli, cfg, cores) is Ok,
    ensures
        ({
            let s = resolve_spec(cli, cfg, cores)->Ok_0;
            &&& s.quality == match cli.compression.quality {
                Some(q) => q,
                None => match cfg.quality {
                    Some(q) => q,
                    None => 75u8,
                },
            }
            &&& s.png_compression == match cli.compression.png_compression {
                Some(c) => c,
                None => match cfg_png(cfg).png_compression {
                    Some(c) => c,
                    None => 2u8,
                },
            }
            &&& s.avif_speed == match cli.compression.avif_speed {
                Some(a) => a,
                None => match cfg_avif_speed(cfg) {
                    Some(a) => a,
                    None => 6u8,
                },
            }
            &&& (cli.compression.chroma_subsampling matches Some(c) ==> s.chroma_subsampling == c)
            &&& (cli.compression.chroma_subsampling is None && cfg_jpeg(cfg).chroma_subsampling is None
                ==> s.chroma_subsampling == ChromaSubsampling::S420)
            &&& (cli.format.format is Some ==> s.format == cli.format.format)
            &&& (cli.format.format is None ==> (cfg.format matches Some(f) ==> s.format == format_from(f@)))
            &&& (cli.format.format is None && cfg.format is None ==> s.format is None)
            &&& (cli.format.background matches Some(b) ==> s.background == b@)
            &&& (cli.format.background is None && cfg.background is None ==> s.background == seq![0xFFu8, 0xFF, 0xFF])
            &&& (cli.io.output matches Some(o) ==> s.output == Some(o@))
            &&& (cli.io.output is None ==> s.output == opt_str(cfg.output))
            &&& (!cli.diag.sequential && cli.diag.jobs is None && cfg.jobs is None ==> s.jobs == cores)
            &&& s.jobs == (if cli.diag.sequential {
                1
            } else {
                match cli.diag.jobs {
                    Some(Jobs::Auto) => cores,
                    Some(Jobs::N(n)) => n,
                    None => if cfg.jobs matches Some(n) && n >= 1 { cfg.jobs->Some_0 } else { cores },
                }
            })
            &&& s.name_template == match cli.io.name_template {
                Some(t) => Some(t@),
                None => opt_str(cfg.name_template),
            }
        }),
{
}

/// Each switch is on when the command line gives it or the config file sets
/// its key to `true`: a config key can turn a switch on, never off. The
/// metadata mode follows the two metadata switches (`StripAll`, else
/// `KeepAll`, else the default), and asking for both, or for `--verbose`
/// with `--quiet`, or for `--in-place` with an output directory, from either
/// source, is refused.
pub proof fn lemma_switches(cli: Cli, cfg: FileConfig, cores: usize)
    ensures
        resolve_spec(cli, cfg, cores) matches Ok(s) ==> {
            &&& s.recursive == (cli.io.recursive || cfg.recursive == Some(true))
            &&& s.in_place == (cli.io.in_place || cfg.in_place == Some(true))
            &&& s.dry_run == (cli.io.dry_run || cfg.dry_run == Some(true))
            &&& s.force == (cli.io.force || cfg.force == Some(true))
            &&& s.verbose == (cli.diag.verbose || cfg.verbose == Some(true))
            &&& s.quiet == (cli.diag.quiet || cfg.quiet == Some(true))
            &&& s.no_progress == (cli.diag.no_progress || cfg.no_progress == Some(true))
            &&& s.allow_upscale == (cli.resize.allow_upscale || cfg.allow_upscale == Some(true))
            &&& s.progressive == (cli.compression.progressive
                || (cfg.jpeg matches Some(j) && j.progressive == Some(true)))
            &&& s.webp_lossless == (cli.compression.webp_lossless
                || (cfg.webp matches Some(w) && w.lossless == Some(true)))
            &&& s.meta_mode == (if cli.metadata.strip_all_metadata || cfg.strip_all_metadata == Some(true) {
                MetaMode::StripAll
            } else if cli.metadata.keep_metadata || cfg.keep_metadata == Some(true) {
                MetaMode::KeepAll
            } else {
                MetaMode::Default
            })
        },
        (cli.metadata.strip_all_metadata || cfg.strip_all_metadata == Some(true))
            && (cli.metadata.keep_metadata || cfg.keep_metadata == Some(true))
            ==> resolve_spec(cli, cfg, cores) is Err,
        (cli.diag.verbose || cfg.verbose == Some(true)) && (cli.diag.quiet || cfg.quiet == Some(true))
            ==> resolve_spec(cli, cfg, cores) is Err,
        (cli.io.in_place || cfg.in_place == Some(true)) && (cli.io.output is Some || cfg.output is Some)
            ==> resolve_spec(cli, cfg, cores) is Err,
{
}

fn clone_opt(o: &Option<String>) -> (r: Option<String>)
    ensures
        opt_str(r) == opt_str(*o),
{
    match o {
        Some(s) => Some(s.clone()),
        None => None,
    }
}

fn opt_or_exec<T: Copy>(a: Option<T>, b: Option<T>, d: T) -> (r: T)
    ensures
        r == opt_or(a, b, d),
{
    match a {
        Some(x) => x,
        None => match b {
            Some(x) => x,
            None => d,
        },
    }
}

fn resize_of(cli: &Cli, cfg: &FileConfig) -> (r: Result<Option<ResizeSpec>, String>)
    ensures
        agrees(r, resize_stage(*cli, *cfg)),
{
    let r = &cli.resize;
    match build_spec(r.width, r.height, r.percent, r.max_width, r.max_height, r.longest_edge, r.shortest_edge, r.max_megapixels, "cli") {
        Err(e) => Err(e),
        Ok(Some(s)) => Ok(Some(s)),
        Ok(None) => build_spec(cfg.width, cfg.height, cfg.percent, cfg.max_width, cfg.max_height, cfg.longest_edge, cfg.shortest_edge, cfg.max_megapixels, "config"),
    }
}

fn filter_of(cli: &Cli, cfg: &FileConfig) -> (r: Result<Filter, String>)
    ensures
        agrees(r, filter_stage(*cli, *cfg)),
{
    match cli.resize.filter {
        Some(f) => Ok(f),
        None => match &cfg.filter {
            Some(s) => parse_filter(s.as_str()),
            None => Ok(Filter::Lanczos3),
        },
    }
}

fn quality_of(cli: &Cli, cfg: &FileConfig) -> (r: Result<u8, String>)
    ensures
        agrees(r, quality_stage(*cli, *cfg)),
{
    let q = opt_or_exec(cli.compression.quality, cfg.quality, 75u8);
    if q > 100 {
        Err(string_from("config: quality must be 0-100"))
    } else {
        Ok(q)
    }
}

fn chroma_of(cli: &Cli, cfg: &FileConfig) -> (r: Result<ChromaSubsampling, String>)
    ensures
        agrees(r, chroma_stage(*cli, *cfg)),
{
    match cli.compression.chroma_subsampling {
        Some(c) => Ok(c),
        None => {
            let named = match &cfg.jpeg {
                Some(j) => &j.chroma_subsampling,
                None => &None,
            };
            match named {
                Some(s) => parse_chroma(s.as_str()),
                None => Ok(ChromaSubsampling::S420),
            }
        },
    }
}

fn png_cfg_of(cfg: &FileConfig) -> (r: (Option<u8>, Option<u16>))
    ensures
        r.0 == cfg_png(*cfg).png_compression,
        r.1 == cfg_png(*cfg).png_colors,
{
    match &cfg.png {
        Some(p) => (p.png_compression, p.png_colors),
        None => (None, None),
    }
}

fn png_compression_of(cli: &Cli, cfg: &FileConfig) -> (r: Result<u8, String>)
    ensures
        agrees(r, png_compression_stage(*cli, *cfg)),
{
    let (pc, _) = png_cfg_of(cfg);
    let c = opt_or_exec(cli.compression.png_compression, pc, 2u8);
    if c > 6 {
        Err(string_from("config: png.compression must be 0-6"))
    } else {
        Ok(c)
    }
}

fn png_colors_of(cli: &Cli, cfg: &FileConfig) -> (r: Result<Option<u16>, String>)
    ensures
        agrees(r, png_colors_stage(*cli, *cfg)),
{
    let (_, pk) = png_cfg_of(cfg);
    let c = match cli.compression.png_colors {
        Some(n) => Some(n),
        None => pk,
    };
    match c {
        Some(n) => if 2 <= n && n <= 256 {
            Ok(c)
        } else {
            Err(string_from("config: png.colors must be 2-256"))
        },
        None => Ok(c),
    }
}

fn avif_speed_of(cli: &Cli, cfg: &FileConfig) -> (r: Result<u8, String>)
    ensures
        agrees(r, avif_speed_stage(*cli, *cfg)),
{
    let from_cfg = match &cfg.avif {
        Some(a) => a.speed,
        None => None,
    };
    let sp = opt_or_exec(cli.compression.avif_speed, from_cfg, 6u8);
    if 1 <= sp && sp <= 10 {
        Ok(sp)
    } else {
        Err(string_from("config: avif.speed must be 1-10"))
    }
}

fn target_of(cli: &Cli, cfg: &FileConfig) -> (r: Result<Option<u64>, String>)
    ensures
        agrees(r, target_stage(*cli, *cfg)),
{
    let given = match &cli.compression.target_size {
        Some(s) => Some(s),
        None => match &cfg.target_size {
            Some(s) => Some(s),
            None => None,
        },
    };
    match given {
        Some(a) => match split_size(a.text.as_str()) {
            Err(e) => Err(e),
            Ok(_) => match a.bytes {
                Some(n) => if n == 0 {
                    Err(string_from("target size must be greater than 0"))
                } else {
                    Ok(Some(n))
                },
                None => {
                    let mut m = string_from("invalid size '");
                    m.append(a.text.as_str());
                    m.append("'");
                    Err(m)
                },
            },
        },
        None => Ok(None),
    }
}

fn format_of(cli: &Cli, cfg: &FileConfig) -> (r: Result<Option<OutputFormat>, String>)
    ensures
        agrees(r, format_stage(*cli, *cfg)),
{
    match cli.format.format {
        Some(f) => Ok(Some(f)),
        None => match &cfg.format {
            Some(s) => match parse_format(s.as_str()) {
                Ok(f) => Ok(Some(f)),
                Err(e) => Err(e),
            },
            None => Ok(None),
        },
    }
}

fn background_of(cli: &Cli, cfg: &FileConfig) -> (r: Result<[u8; 3], String>)
    ensures
        match r {
            Ok(b) => background_stage(*cli, *cfg) == Ok::<Seq<u8>, Seq<char>>(b@),
            Err(m) => background_stage(*cli, *cfg) == Err::<Seq<u8>, Seq<char>>(m@),
        },
{
    match cli.format.background {
        Some(b) => Ok(b),
        None => match &cfg.background {
            Some(s) => parse_background(s.as_str()),
            None => {
                let w: [u8; 3] = [0xFF, 0xFF, 0xFF];
                assert(w@ =~= seq![0xFFu8, 0xFF, 0xFF]);
                Ok(w)
            },
        },
    }
}

fn meta_of(cli: &Cli, cfg: &FileConfig) -> (r: Result<MetaMode, String>)
    ensures
        agrees(r, meta_stage(*cli, *cfg)),
{
    let strip_all = cli.metadata.strip_all_metadata || flag_exec(cfg.strip_all_metadata);
    let keep = cli.metadata.keep_metadata || flag_exec(cfg.keep_metadata);
    if strip_all && keep {
        Err(string_from("--strip-all-metadata conflicts with --keep-metadata"))
    } else if strip_all {
        Ok(MetaMode::StripAll)
    } else if keep {
        Ok(MetaMode::KeepAll)
    } else {
        Ok(MetaMode::Default)
    }
}

fn jobs_exec(cli: &Cli, cfg: &FileConfig, cores: usize) -> (n: usize)
    ensures
        n == jobs_of(*cli, *cfg, cores),
{
    if cli.diag.sequential {
        1
    } else {
        match cli.diag.jobs {
            Some(Jobs::Auto) => cores,
            Some(Jobs::N(n)) => n,
            None => match cfg.jobs {
                Some(n) => if n >= 1 { n } else { cores },
                None => cores,
            },
        }
    }
}


/// Merges the command line, the config file's content and the number of CPU
/// cores into validated settings (CLI flag > config file > built-in default);
/// `Err` carries the message of the first check that fails.
pub fn resolve(cli: &Cli, cfg: &FileConfig, cores: usize) -> (r: Result<Settings, String>)
    ensures
        match r {
            Ok(st) => resolve_spec(*cli, *cfg, cores) == Ok::<SettingsView, Seq<char>>(st@),
            Err(m) => resolve_spec(*cli, *cfg, cores) == Err::<SettingsView, Seq<char>>(m@),
        },
{
    let resize = match resize_of(cli, cfg) {
        Ok(x) => x,
        Err(e) => return Err(e),
    };
    let filter = match filter_of(cli, cfg) {
        Ok(x) => x,
        Err(e) => return Err(e),
    };
    let quality = match quality_of(cli, cfg) {
        Ok(x) => x,
        Err(e) => return Err(e),
    };
    let progressive = cli.compression.progressive || match &cfg.jpeg {
        Some(j) => flag_exec(j.progressive),
        None => false,
    };
    let chroma_subsampling = match chroma_of(cli, cfg) {
        Ok(x) => x,
        Err(e) => return Err(e),
    };
    let png_compression = match png_compression_of(cli, cfg) {
        Ok(x) => x,
        Err(e) => return Err(e),
    };
    let png_colors = match png_colors_of(cli, cfg) {
        Ok(x) => x,
        Err(e) => return Err(e),
    };
    let webp_lossless = cli.compression.webp_lossless || match &cfg.webp {
        Some(w) => flag_exec(w.lossless),
        None => false,
    };
    let avif_speed = match avif_speed_of(cli, cfg) {
        Ok(x) => x,
        Err(e) => return Err(e),
    };
    let target_size = match target_of(cli, cfg) {
        Ok(x) => x,
        Err(e) => return Err(e),
    };
    let format = match format_of(cli, cfg) {
        Ok(x) => x,
        Err(e) => return Err(e),
    };
    let background = match background_of(cli, cfg) {
        Ok(x) => x,
        Err(e) => return Err(e),
    };
    let meta_mode = match meta_of(cli, cfg) {
        Ok(x) => x,
        Err(e) => return Err(e),
    };
    let verbose = cli.diag.verbose || flag_exec(cfg.verbose);
    let quiet = cli.diag.quiet || flag_exec(cfg.quiet);
    if verbose && quiet {
        return Err(string_from("--verbose conflicts with --quiet"));
    }
    let output = match &cli.io.output {
        Some(o) => Some(o.clone()),
        None => clone_opt(&cfg.output),
    };
    let in_place = cli.io.in_place || flag_exec(cfg.in_place);
    if output.is_some() && in_place {
        return Err(string_from("--in-place conflicts with --output"));
    }
    let name_template = match &cli.io.name_template {
        Some(t) => Some(t.clone()),
        None => clone_opt(&cfg.name_template),
    };
    if let Some(t) = &name_template {
        if let Err(e) = validate_template(t.as_str()) {
            return Err(e);
        }
    }
    let jobs = jobs_exec(cli, cfg, cores);
    let st = Settings {
        recursive: cli.io.recursive || flag_exec(cfg.recursive),
        output,
        in_place,
        name_template,
        dry_run: cli.io.dry_run || flag_exec(cfg.dry_run),
        force: cli.io.force || flag_exec(cfg.force),
        jobs,
        verbose,
        quiet,
        no_progress: cli.diag.no_progress || flag_exec(cfg.no_progress),
        resize,
        allow_upscale: cli.resize.allow_upscale || flag_exec(cfg.allow_upscale),
        filter,
        quality,
        progressive,
        chroma_subsampling,
        png_compression,
        png_colors,
        webp_lossless,
        avif_speed,
        target_size,
        format,
        background,
        meta_mode,
    };
    assert(st@ == settings_of(*cli, *cfg, cores));
    Ok(st)
}

} // verus!
