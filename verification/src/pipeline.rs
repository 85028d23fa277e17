//! Per-file decisions: the input's format, output naming, the choice of
//! output format, the skip rules, the quality search for a target size, and
//! the plan for a decoded image (encoding, metadata, what to write), with
//! decoding and resizing of the pixels.

use vstd::prelude::*;
use crate::cli::{Filter, OutputFormat};
use crate::text::{replace_all, decimal, decimal_chars, chars_of, replace_chars, string_of_chars, lower, lower_eq};
use crate::paths::{opt_str, path_file_stem, path_parent, path_file_name, path_with_extension, path_join, path_strip_prefix};
use crate::encoders::{self, encodable, encode_error_of, EncoderOpts, RgbaImage};
use crate::error::ImzipError;
use crate::batch::{InputEntry, EntryView};
use crate::config::{Settings, SettingsView};
use crate::metadata::{self, MetaMode, MetaView, Metadata, empty_meta, inject_spec};
use crate::bytes::starts_with;
use crate::metadata::{effective};
use crate::metadata::jpeg::{jpeg_metadata, jpeg_injected, jpeg_scan, empty_scan, jpeg_fits, lemma_jpeg_roundtrip};
use crate::metadata::png::{png_metadata, png_injected, png_sig, png_find_idat, no_iend_before_idat, png_fits, lemma_png_roundtrip};
use crate::metadata::webp::{webp_metadata, webp_injected, riff_chunks_spec, opt_len_ok, lemma_webp_roundtrip};

verus! {

/// What we know about the input file's format.
#[derive(Clone, Copy, Debug, PartialEq, Eq, Structural)]
pub enum InputKind {
    Jpeg,
    Png,
    Webp,
    Avif,
    Gif,
    /// Anything else the decoder reads (bmp, tiff, tga, ico, pnm...).
    Other,
}

impl InputKind {
    /// The output format that "keep the input format" maps to, if it can be
    /// re-encoded (other inputs fall back to PNG).
    pub fn default_output(self) -> (r: Option<OutputFormat>)
        ensures
            r == match self {
                InputKind::Jpeg => Some(OutputFormat::Jpeg),
                InputKind::Png => Some(OutputFormat::Png),
                InputKind::Webp => Some(OutputFormat::Webp),
                InputKind::Avif => Some(OutputFormat::Avif),
                InputKind::Gif => Some(OutputFormat::Gif),
                InputKind::Other => None,
            },
    {
        match self {
            InputKind::Jpeg => Some(OutputFormat::Jpeg),
            InputKind::Png => Some(OutputFormat::Png),
            InputKind::Webp => Some(OutputFormat::Webp),
            InputKind::Avif => Some(OutputFormat::Avif),
            InputKind::Gif => Some(OutputFormat::Gif),
            InputKind::Other => None,
        }
    }
}

/// `Path::extension` of `p`.
pub uninterp spec fn path_extension(p: Seq<char>) -> Option<Seq<char>>;

/// The format that `image::guess_format` recognises from the leading bytes
/// of an image, as an [`InputKind`]: its table of signatures, tried in
/// order, as far as it tells these five formats from the others (a file
/// that no signature matches, or one of another format, gives `Other`).
/// Of the signatures before AVIF's, only ICO's (`00 00 01 00`) can match a
/// file that AVIF's masked signature matches.
pub open spec fn guessed_kind(b: Seq<u8>) -> InputKind {
    if starts_with(b, seq![0x89u8, 0x50, 0x4e, 0x47, 0x0d, 0x0a, 0x1a, 0x0a]) {
        InputKind::Png
    } else if starts_with(b, seq![0xFFu8, 0xD8, 0xFF]) {
        InputKind::Jpeg
    } else if starts_with(b, seq![0x47u8, 0x49, 0x46, 0x38, 0x39, 0x61]) || starts_with(b, seq![0x47u8, 0x49, 0x46, 0x38, 0x37, 0x61]) {
        InputKind::Gif
    } else if b.len() >= 12 && b.take(4) == seq![0x52u8, 0x49, 0x46, 0x46] && b.subrange(8, 12) == seq![0x57u8, 0x45, 0x42, 0x50] {
        InputKind::Webp
    } else if b.len() >= 12 && b[0] == 0 && b[1] == 0 && !(b[2] == 1 && b[3] == 0)
        && b.subrange(4, 12) == seq![0x66u8, 0x74, 0x79, 0x70, 0x61, 0x76, 0x69, 0x66] {
        InputKind::Avif
    } else {
        InputKind::Other
    }
}

/// `std::path::Path::extension`.
#[verifier::external_body]
pub(crate) fn extension_of(p: &str) -> (r: Option<String>)
    ensures
        opt_str(r) == path_extension(p@),
{
    std::path::Path::new(p).extension().and_then(|s| s.to_str()).map(|s| s.to_string())
}

/// `image::guess_format`, its result told apart by variant; the crate's
/// table of leading signatures (`MAGIC_BYTES`) as [`guessed_kind`] states
/// it.
#[verifier::external_body]
fn guess_kind(bytes: &[u8]) -> (k: InputKind)
    ensures
        k == guessed_kind(bytes@),
{
    match image::guess_format(bytes) {
        Ok(image::ImageFormat::Jpeg) => InputKind::Jpeg,
        Ok(image::ImageFormat::Png) => InputKind::Png,
        Ok(image::ImageFormat::WebP) => InputKind::Webp,
        Ok(image::ImageFormat::Avif) => InputKind::Avif,
        Ok(image::ImageFormat::Gif) => InputKind::Gif,
        _ => InputKind::Other,
    }
}

/// The input kind by file extension (ASCII case-insensitive), if it names one.
pub open spec fn kind_by_extension(ext: Seq<char>) -> Option<InputKind> {
    let l = lower(ext);
    if l == "jpg"@ || l == "jpeg"@ {
        Some(InputKind::Jpeg)
    } else if l == "png"@ {
        Some(InputKind::Png)
    } else if l == "webp"@ {
        Some(InputKind::Webp)
    } else if l == "avif"@ {
        Some(InputKind::Avif)
    } else if l == "gif"@ {
        Some(InputKind::Gif)
    } else {
        None
    }
}

/// The input's kind: by its extension when that names one, else by its
/// content (`image::guess_format`).
pub open spec fn input_kind_spec(path: Seq<char>, bytes: Seq<u8>) -> InputKind {
    match path_extension(path) {
        Some(e) => match kind_by_extension(e) {
            Some(k) => k,
            None => guessed_kind(bytes),
        },
        None => guessed_kind(bytes),
    }
}

/// Detects the input kind of the file at `path` with content `bytes`.
pub fn detect_input_kind(path: &str, bytes: &[u8]) -> (k: InputKind)
    ensures
        k == input_kind_spec(path@, bytes@),
{
    if let Some(e) = extension_of(path) {
        let v = chars_of(e.as_str());
        let n = v.len();
        assert(v@.subrange(0, n as int) =~= v@);
        if lower_eq(&v, 0, n, "jpg") || lower_eq(&v, 0, n, "jpeg") {
            return InputKind::Jpeg;
        } else if lower_eq(&v, 0, n, "png") {
            return InputKind::Png;
        } else if lower_eq(&v, 0, n, "webp") {
            return InputKind::Webp;
        } else if lower_eq(&v, 0, n, "avif") {
            return InputKind::Avif;
        } else if lower_eq(&v, 0, n, "gif") {
            return InputKind::Gif;
        }
    }
    guess_kind(bytes)
}

// ---------------------------------------------------------------- naming

/// Inputs to name-template rendering.
pub struct NameCtx<'a> {
    pub input: &'a str,
    pub format: OutputFormat,
    pub width: u32,
    pub height: u32,
    pub index: usize,
}

pub open spec fn ext_of(f: OutputFormat) -> Seq<char> {
    match f {
        OutputFormat::Jpeg => "jpg"@,
        OutputFormat::Png => "png"@,
        OutputFormat::Webp => "webp"@,
        OutputFormat::Avif => "avif"@,
        OutputFormat::Gif => "gif"@,
    }
}

pub open spec fn name_of(f: OutputFormat) -> Seq<char> {
    match f {
        OutputFormat::Jpeg => "jpeg"@,
        OutputFormat::Png => "png"@,
        OutputFormat::Webp => "webp"@,
        OutputFormat::Avif => "avif"@,
        OutputFormat::Gif => "gif"@,
    }
}

/// The template with `{name}`, `{ext}`, `{format}`, `{width}`, `{height}`,
/// `{index}`, `{parent}` replaced, in that order, each replacement applied
/// to the result of the previous one.
pub open spec fn render_spec(
    t: Seq<char>,
    name: Seq<char>,
    format: OutputFormat,
    width: u32,
    height: u32,
    index: usize,
    parent: Seq<char>,
) -> Seq<char> {
    let s1 = replace_all(t, "{name}"@, name);
    let s2 = replace_all(s1, "{ext}"@, ext_of(format));
    let s3 = replace_all(s2, "{format}"@, name_of(format));
    let s4 = replace_all(s3, "{width}"@, decimal(width as nat));
    let s5 = replace_all(s4, "{height}"@, decimal(height as nat));
    let s6 = replace_all(s5, "{index}"@, decimal(index as nat));
    replace_all(s6, "{parent}"@, parent)
}

fn replace_str(s: &Vec<char>, pat: &str, rep: &Vec<char>) -> (out: Vec<char>)
    ensures
        out@ == replace_all(s@, pat@, rep@),
{
    let p = chars_of(pat);
    replace_chars(s, &p, rep)
}

/// Renders a name template from the values of its placeholders.
pub fn render_template(
    template: &str,
    name: &str,
    format: OutputFormat,
    width: u32,
    height: u32,
    index: usize,
    parent: &str,
) -> (r: String)
    ensures
        r@ == render_spec(template@, name@, format, width, height, index, parent@),
{
    let t = chars_of(template);
    let s1 = replace_str(&t, "{name}", &chars_of(name));
    let s2 = replace_str(&s1, "{ext}", &chars_of(format.extension()));
    let s3 = replace_str(&s2, "{format}", &chars_of(format.name()));
    let s4 = replace_str(&s3, "{width}", &decimal_chars(width as u64));
    let s5 = replace_str(&s4, "{height}", &decimal_chars(height as u64));
    let s6 = replace_str(&s5, "{index}", &decimal_chars(index as u64));
    let s7 = replace_str(&s6, "{parent}", &chars_of(parent));
    string_of_chars(&s7)
}

/// `{name}`: the input's file stem, or `image` when it has none.
pub open spec fn stem_or_default(p: Seq<char>) -> Seq<char> {
    match path_file_stem(p) {
        Some(s) => s,
        None => "image"@,
    }
}

/// `{parent}`: the name of the input's directory, or empty.
pub open spec fn parent_name(p: Seq<char>) -> Seq<char> {
    match path_parent(p) {
        Some(q) => match path_file_name(q) {
            Some(n) => n,
            None => ""@,
        },
        None => ""@,
    }
}

/// Renders `{name} {ext} {format} {width} {height} {index} {parent}` placeholders.
pub fn render_name_template(template: &str, ctx: &NameCtx) -> (r: String)
    ensures
        r@ == render_spec(
            template@,
            stem_or_default(ctx.input@),
            ctx.format,
            ctx.width,
            ctx.height,
            ctx.index,
            parent_name(ctx.input@),
        ),
{
    let name = match crate::paths::file_stem(ctx.input) {
        Some(s) => s,
        None => crate::text::string_from("image"),
    };
    let parent = match crate::paths::parent(ctx.input) {
        Some(q) => match crate::paths::file_name(q.as_str()) {
            Some(n) => n,
            None => String::new(),
        },
        None => String::new(),
    };
    proof {
        reveal_strlit("");
        assert(""@ =~= Seq::<char>::empty());
    }
    assert(name@ == stem_or_default(ctx.input@));
    assert(parent@ == parent_name(ctx.input@));
    render_template(template, name.as_str(), ctx.format, ctx.width, ctx.height, ctx.index, parent.as_str())
}


// ---------------------------------------------------------------- quality search

/// The state of the binary search for the highest quality whose output
/// fits a target size: qualities `lo..=hi` are still open, `best` is the
/// highest quality that fitted so far, `probes` counts the encodings made.
#[derive(Clone, Copy, Debug, PartialEq, Eq, Structural)]
pub struct QualitySearch {
    pub lo: u8,
    pub hi: u8,
    pub best: Option<u8>,
    pub probes: u8,
}

/// The search starts on qualities 1 to 100.
pub open spec fn search_start() -> QualitySearch {
    QualitySearch { lo: 1, hi: 100, best: None, probes: 0 }
}

/// The search ends after 7 encodings, or when no quality is left open.
pub open spec fn search_done(s: QualitySearch) -> bool {
    s.probes >= 7 || s.lo > s.hi
}

/// The quality tried next: the middle of the open range.
pub open spec fn search_mid(s: QualitySearch) -> u8 {
    ((s.lo + s.hi) / 2) as u8
}

/// The bounds the search keeps.
pub open spec fn search_inv(s: QualitySearch) -> bool {
    1 <= s.lo <= 101 && s.hi <= 100 && s.probes <= 7
}

/// After the quality in the middle gave an output of `size` bytes: if it
/// fits `target` it is the best so far and only higher qualities stay open,
/// else only lower ones.
pub open spec fn search_step(s: QualitySearch, size: nat, target: nat) -> QualitySearch {
    let mid = search_mid(s);
    if size <= target {
        QualitySearch { lo: (mid + 1) as u8, best: Some(mid), probes: (s.probes + 1) as u8, ..s }
    } else {
        QualitySearch { hi: (mid - 1) as u8, probes: (s.probes + 1) as u8, ..s }
    }
}

/// The state after the output sizes `sizes`, one per encoding, in order.
pub open spec fn search_run(sizes: Seq<nat>, target: nat) -> QualitySearch
    decreases sizes.len(),
{
    if sizes.len() == 0 {
        search_start()
    } else {
        search_step(search_run(sizes.drop_last(), target), sizes.last(), target)
    }
}

/// Whether each encoding of `sizes` was made while the search was still open.
pub open spec fn search_trace(sizes: Seq<nat>, target: nat) -> bool {
    forall|i: int| 0 <= i < sizes.len() ==> !search_done(#[trigger] search_run(sizes.take(i), target))
}

/// The smallest of a non-empty sequence of sizes.
pub open spec fn seq_min(sizes: Seq<nat>) -> nat
    decreases sizes.len(),
{
    if sizes.len() <= 1 {
        sizes[0]
    } else {
        let m = seq_min(sizes.drop_last());
        if sizes.last() < m { sizes.last() } else { m }
    }
}

impl QualitySearch {
    pub fn new() -> (s: Self)
        ensures
            s == search_start(),
    {
        QualitySearch { lo: 1, hi: 100, best: None, probes: 0 }
    }

    pub fn done(&self) -> (b: bool)
        ensures
            b == search_done(*self),
    {
        self.probes >= 7 || self.lo > self.hi
    }

    /// The quality to try next.
    pub fn mid(&self) -> (m: u8)
        requires
            search_inv(*self),
        ensures
            m == search_mid(*self),
    {
        (self.lo + self.hi) / 2
    }

    /// Records the output size of the quality in the middle.
    pub fn record(&mut self, size: u64, target: u64)
        requires
            search_inv(*old(self)),
            !search_done(*old(self)),
        ensures
            *final(self) == search_step(*old(self), size as nat, target as nat),
            search_inv(*final(self)),
    {
        let mid = (self.lo + self.hi) / 2;
        if size <= target {
            self.best = Some(mid);
            self.lo = mid + 1;
        } else {
            self.hi = mid - 1;
        }
        self.probes = self.probes + 1;
    }
}

proof fn lemma_run_push(sizes: Seq<nat>, x: nat, target: nat)
    ensures
        search_run(sizes.push(x), target) == search_step(search_run(sizes, target), x, target),
        forall|i: int| 0 <= i <= sizes.len() ==> #[trigger] sizes.push(x).take(i) == sizes.take(i),
{
    assert(sizes.push(x).drop_last() =~= sizes);
    assert forall|i: int| 0 <= i <= sizes.len() implies #[trigger] sizes.push(x).take(i) == sizes.take(i) by {
        assert(sizes.push(x).take(i) =~= sizes.take(i));
    }
}

/// The outcome of the encoder of `format` at quality `q`, the other
/// settings as in `opts`, AVIF with `threads` threads.
pub open spec fn enc_at(format: OutputFormat, img: RgbaImage, opts: EncoderOpts, threads: usize, q: u8) -> Result<Seq<u8>, Seq<char>> {
    encoders::encode_out(format, img, EncoderOpts { quality: q, ..opts }, threads)
}

/// The output size at each quality (0 where the encoder fails).
pub open spec fn enc_len(format: OutputFormat, img: RgbaImage, opts: EncoderOpts, threads: usize) -> spec_fn(u8) -> nat {
    |q: u8| match enc_at(format, img, opts, threads, q) {
        Ok(b) => b.len(),
        Err(_) => 0,
    }
}

/// The quality tried by the `i`-th encoding of a search whose encodings gave
/// `sizes`.
pub open spec fn probed(sizes: Seq<nat>, target: nat, i: int) -> u8 {
    search_mid(search_run(sizes.take(i), target))
}

/// The quality of the `i`-th encoding of the search when quality `q` gives
/// an output of `size(q)` bytes.
pub open spec fn probe_q(size: spec_fn(u8) -> nat, target: nat, i: nat) -> u8 {
    search_mid(probe_run(size, target, i))
}

/// The first of the first `n` encodings whose output is the smallest.
pub open spec fn first_smallest(size: spec_fn(u8) -> nat, target: nat, n: nat) -> nat
    decreases n,
{
    if n <= 1 {
        0
    } else {
        let k = first_smallest(size, target, (n - 1) as nat);
        if size(probe_q(size, target, (n - 1) as nat)) < size(probe_q(size, target, k)) {
            (n - 1) as nat
        } else {
            k
        }
    }
}

/// The encoding the search settles on: its quality, and whether it fits the
/// target. That is the best quality found, or, when none fitted, the first
/// of the smallest outputs tried.
pub open spec fn search_pick(size: spec_fn(u8) -> nat, target: nat) -> (u8, bool) {
    let s = probe_run(size, target, 7);
    match s.best {
        Some(q) => (q, true),
        None => (probe_q(size, target, first_smallest(size, target, s.probes as nat)), false),
    }
}

/// What the quality search with `threads` threads for AVIF gives: without
/// a target, the encoder's own outcome; with one, the outcome of a run of at
/// most 7 encodings over the encoder's outputs, each size the search sees
/// being the length of the encoder's output at the quality tried. It
/// succeeds whenever the encoder does at every quality, returns the output
/// at the quality `search_pick` settles on, and when sizes grow with the
/// quality that is the highest quality that fits.
pub open spec fn searched(
    r: Result<(Vec<u8>, Option<u8>, bool), ImzipError>,
    format: OutputFormat,
    img: RgbaImage,
    opts: EncoderOpts,
    target: Option<u64>,
    threads: usize,
) -> bool {
    &&& (target is None ==> (r matches Ok((_, q, reached)) ==> q is None && reached))
    &&& (target matches Some(t) ==> (r matches Ok((buf, q, reached)) ==> exists|sizes: Seq<nat>| {
        &&& #[trigger] search_trace(sizes, t as nat)
        &&& search_done(search_run(sizes, t as nat))
        &&& 1 <= sizes.len() <= 7
        &&& reached == (search_run(sizes, t as nat).best is Some)
        &&& (reached ==> q == search_run(sizes, t as nat).best && buf@.len() <= t)
        &&& (!reached ==> q == Some(1u8) && buf@.len() == seq_min(sizes))
        &&& ({
            &&& search_run(sizes, t as nat) == probe_run(enc_len(format, img, opts, threads), t as nat, 7)
            &&& forall|i: int| 0 <= i < sizes.len() ==> (enc_at(format, img, opts, threads, #[trigger] probed(sizes, t as nat, i))
                matches Ok(b) && b.len() == sizes[i])
            &&& (reached ==> enc_at(format, img, opts, threads, q->0) == Ok::<Seq<u8>, Seq<char>>(buf@))
            &&& (!reached ==> exists|i: int| 0 <= i < sizes.len() && enc_at(format, img, opts, threads, #[trigger] probed(sizes, t as nat, i))
                == Ok::<Seq<u8>, Seq<char>>(buf@))
        })
    }))
    &&& (target is None ==> encoders::encoded_as(
        match r { Ok((b, _, _)) => Ok(b), Err(e) => Err(e) },
        encoders::encode_out(format, img, opts, threads),
        format,
    ))
    &&& (target is Some ==> (
        (forall|q: u8| 1 <= q <= 100 ==> #[trigger] enc_at(format, img, opts, threads, q) is Ok) ==> r is Ok))
    &&& (target is Some ==> (r matches Ok((buf, _, _)) ==> exists|q: u8| 1 <= q <= 100
        && #[trigger] enc_at(format, img, opts, threads, q) == Ok::<Seq<u8>, Seq<char>>(buf@)))
    &&& (target is Some ==> (r matches Ok((buf, q, reached)) ==> {
        let pick = search_pick(enc_len(format, img, opts, threads), target->0 as nat);
        &&& reached == pick.1
        &&& q == (if pick.1 { Some(pick.0) } else { Some(1u8) })
        &&& enc_at(format, img, opts, threads, pick.0) == Ok::<Seq<u8>, Seq<char>>(buf@)
    }))
    &&& (target is Some ==> (r matches Ok((buf, q, reached)) ==> {
        let size = enc_len(format, img, opts, threads);
        let t = target->0;
        &&& (reached ==> (q matches Some(qq) && size(qq) <= t && (qq == 100 || size((qq + 1) as u8) > t)))
        &&& (!reached ==> size(1) > t)
        &&& (sizes_grow(size) && reached ==> forall|p: u8| q->0 < p <= 100 ==> #[trigger] size(p) > t)
        &&& (sizes_grow(size) && !reached ==> forall|p: u8| 1 <= p <= 100 ==> #[trigger] size(p) > t)
    }))
    &&& (target is Some ==> (r matches Err(e) ==> exists|q: u8| 1 <= q <= 100
        && (#[trigger] enc_at(format, img, opts, threads, q) matches Err(m) && (e matches ImzipError::Encode { msg, .. } && msg@ == m))))
}

/// Encodes once, or binary-searches the quality (1 to 100, at most 7
/// encodings) for an output that fits `target` bytes. Returns the bytes,
/// the quality used and whether the target was reached: the highest quality
/// that fitted, or, when none did, the smallest output with quality 1.
/// AVIF is encoded with as many threads as the current rayon pool has, one
/// count for the whole search; see [`searched`].
pub fn encode_with_search(
    format: OutputFormat,
    img: &RgbaImage,
    opts: &EncoderOpts,
    target: Option<u64>,
) -> (r: Result<(Vec<u8>, Option<u8>, bool), ImzipError>)
    requires
        target is None ==> encodable(format, *img, *opts),
        target is Some ==> encodable(format, *img, EncoderOpts { quality: 1, ..*opts }),
    ensures
        r matches Err(e) ==> encode_error_of(e, format),
        exists|n: usize| n >= 1 && #[trigger] searched(r, format, *img, *opts, target, n),
{
    let n = encoders::thread_count();
    search_threads(format, img, opts, target, n)
}

/// The quality search, AVIF encoded with `threads` threads: see
/// [`searched`].
#[verifier::rlimit(40)]
pub fn search_threads(
    format: OutputFormat,
    img: &RgbaImage,
    opts: &EncoderOpts,
    target: Option<u64>,
    threads: usize,
) -> (r: Result<(Vec<u8>, Option<u8>, bool), ImzipError>)
    requires
        target is None ==> encodable(format, *img, *opts),
        target is Some ==> encodable(format, *img, EncoderOpts { quality: 1, ..*opts }),
        threads >= 1,
    ensures
        r matches Err(e) ==> encode_error_of(e, format),
        searched(r, format, *img, *opts, target, threads),
{
    let t = match target {
        None => {
            return match encoders::encode_threads(format, img, opts, threads) {
                Ok(buf) => Ok((buf, None, true)),
                Err(e) => Err(e),
            };
        },
        Some(t) => t,
    };
    let ghost size = enc_len(format, *img, *opts, threads);
    let mut search = QualitySearch::new();
    let mut best_fit: Option<(u8, Vec<u8>)> = None;
    let mut smallest: Option<Vec<u8>> = None;
    let ghost mut sizes: Seq<nat> = seq![];
    while !search.done()
        invariant
            encodable(format, *img, EncoderOpts { quality: 1, ..*opts }),
            target == Some(t),
            threads >= 1,
            size == enc_len(format, *img, *opts, threads),
            search == search_run(sizes, t as nat),
            search_trace(sizes, t as nat),
            search_inv(search),
            sizes.len() == search.probes,
            best_fit matches Some((q, b)) ==> search.best == Some(q) && b@.len() <= t,
            best_fit is None ==> search.best is None,
            smallest is None <==> sizes.len() == 0,
            smallest matches Some(b) ==> b@.len() == seq_min(sizes),
            search == probe_run(size, t as nat, sizes.len()),
            forall|i: int| 0 <= i < sizes.len() ==> (enc_at(format, *img, *opts, threads, #[trigger] probed(sizes, t as nat, i))
                matches Ok(b) && b.len() == sizes[i]),
            (best_fit matches Some((q, b)) ==> enc_at(format, *img, *opts, threads, q) == Ok::<Seq<u8>, Seq<char>>(b@)),
            best_fit matches Some((q, b)) ==> 1 <= q <= 100,
            (smallest matches Some(b) ==> exists|q: u8| 1 <= q <= 100 && #[trigger] enc_at(format, *img, *opts, threads, q)
                == Ok::<Seq<u8>, Seq<char>>(b@)),
            forall|i: nat| i <= sizes.len() ==> #[trigger] search_run(sizes.take(i as int), t as nat) == probe_run(size, t as nat, i),
            (smallest matches Some(b) ==> enc_at(format, *img, *opts, threads, probe_q(size, t as nat, first_smallest(size, t as nat, sizes.len())))
                == Ok::<Seq<u8>, Seq<char>>(b@)),
            (smallest matches Some(b) ==> exists|i: int| 0 <= i < sizes.len() && enc_at(format, *img, *opts, threads, #[trigger] probed(sizes, t as nat, i))
                == Ok::<Seq<u8>, Seq<char>>(b@)),
        decreases 7 - search.probes,
    {
        let q = search.mid();
        assert(1 <= q <= 100);
        let o = opts.with_quality(q);
        assert(o == EncoderOpts { quality: q, ..*opts });
        let res = encoders::encode_threads(format, img, &o, threads);
        let buf = match res {
            Ok(b) => b,
            Err(e) => {
                proof {
                    assert(probed(sizes, t as nat, sizes.len() as int) == q) by {
                        assert(sizes.take(sizes.len() as int) =~= sizes);
                    }
                }
                return Err(e);
            },
        };
        let size_u = buf.len() as u64;
        let ghost bv = buf@;
        assert(enc_at(format, *img, *opts, threads, q) == Ok::<Seq<u8>, Seq<char>>(bv));
        let smaller = match &smallest {
            None => true,
            Some(b) => size_u < b.len() as u64,
        };
        let ghost old_smallest = smallest;
        let ghost old_best = best_fit;
        let ghost old_search = search;
        if smaller {
            smallest = Some(crate::bytes::copy_range(buf.as_slice(), 0, buf.len()));
        }
        if size_u <= t {
            best_fit = Some((q, buf));
        }
        search.record(size_u, t);
        proof {
            let old_sizes = sizes;
            lemma_run_push(old_sizes, size_u as nat, t as nat);
            sizes = old_sizes.push(size_u as nat);
            assert(sizes.drop_last() =~= old_sizes);
            assert(old_sizes.take(old_sizes.len() as int) =~= old_sizes);
            assert(probed(old_sizes, t as nat, old_sizes.len() as int) == q);
            assert forall|i: int| 0 <= i < sizes.len() implies !search_done(#[trigger] search_run(sizes.take(i), t as nat)) by {
                if i < old_sizes.len() {
                    assert(sizes.take(i) == old_sizes.take(i));
                } else {
                    assert(sizes.take(i) =~= old_sizes);
                }
            }
            assert forall|i: int| 0 <= i < sizes.len() implies #[trigger] probed(sizes, t as nat, i) == if i < old_sizes.len() {
                probed(old_sizes, t as nat, i)
            } else {
                q
            } by {
                if i < old_sizes.len() {
                    assert(sizes.take(i) == old_sizes.take(i));
                } else {
                    assert(sizes.take(i) =~= old_sizes);
                }
            }
            {
                assert(size(q) == size_u as nat);
                assert(probe_run(size, t as nat, sizes.len()) == search_step(old_search, size(q), t as nat));
                assert forall|i: int| 0 <= i < sizes.len() implies (enc_at(format, *img, *opts, threads, #[trigger] probed(sizes, t as nat, i))
                    matches Ok(b) && b.len() == sizes[i]) by {
                    if i < old_sizes.len() {
                        assert(probed(sizes, t as nat, i) == probed(old_sizes, t as nat, i));
                    } else {
                        assert(probed(sizes, t as nat, i) == q);
                    }
                }
                assert(probe_q(size, t as nat, old_sizes.len()) == q);
                lemma_prefix_runs(size, t as nat, old_sizes, size_u as nat);
                let n = old_sizes.len();
                assert(first_smallest(size, t as nat, n + 1) == if n == 0 {
                    0
                } else if size(probe_q(size, t as nat, n)) < size(probe_q(size, t as nat, first_smallest(size, t as nat, n))) {
                    n
                } else {
                    first_smallest(size, t as nat, n)
                });
                if n > 0 {
                    assert(size(probe_q(size, t as nat, first_smallest(size, t as nat, n))) == old_smallest->0@.len());
                }
                if smaller {
                    assert(probed(sizes, t as nat, old_sizes.len() as int) == q);
                    assert(smallest->0@ == bv);
                    assert(enc_at(format, *img, *opts, threads, probed(sizes, t as nat, old_sizes.len() as int)) == Ok::<Seq<u8>, Seq<char>>(smallest->0@));
                } else {
                    let i = choose|i: int| 0 <= i < old_sizes.len() && enc_at(format, *img, *opts, threads, #[trigger] probed(old_sizes, t as nat, i))
                        == Ok::<Seq<u8>, Seq<char>>(old_smallest->0@);
                    assert(probed(sizes, t as nat, i) == probed(old_sizes, t as nat, i));
                }
            }
        }
    }
    proof {
        if sizes.len() == 0 {
            assert(search == search_start());
        }
        {
            lemma_probe_done(size, t as nat, sizes.len(), 7);
            lemma_search_finds_highest(size, t as nat);
        }
    }
    match best_fit {
        Some((q, buf)) => Ok((buf, Some(q), true)),
        None => match smallest {
            Some(buf) => Ok((buf, Some(1), false)),
            None => Ok((Vec::new(), Some(1), false)),
        },
    }
}

/// The runs of the search over the first `i` sizes seen are its rounds
/// over the output sizes, one more after one more encoding.
proof fn lemma_prefix_runs(size: spec_fn(u8) -> nat, target: nat, old: Seq<nat>, x: nat)
    requires
        forall|i: nat| i <= old.len() ==> #[trigger] search_run(old.take(i as int), target) == probe_run(size, target, i),
        !search_done(probe_run(size, target, old.len())),
        x == size(search_mid(probe_run(size, target, old.len()))),
    ensures
        forall|i: nat| i <= old.len() + 1 ==> #[trigger] search_run(old.push(x).take(i as int), target) == probe_run(size, target, i),
{
    assert forall|i: nat| i <= old.len() + 1 implies #[trigger] search_run(old.push(x).take(i as int), target) == probe_run(size, target, i) by {
        if i <= old.len() {
            assert(old.push(x).take(i as int) =~= old.take(i as int));
        } else {
            assert(old.push(x).take(i as int) =~= old.push(x));
            assert(old.take(old.len() as int) =~= old);
            lemma_run_push(old, x, target);
        }
    }
}

/// Once the search is done, further rounds change nothing.
proof fn lemma_probe_done(size: spec_fn(u8) -> nat, target: nat, n: nat, m: nat)
    requires
        n <= m,
        search_done(probe_run(size, target, n)),
    ensures
        probe_run(size, target, m) == probe_run(size, target, n),
    decreases m,
{
    if m > n {
        lemma_probe_done(size, target, n, (m - 1) as nat);
    }
}


/// The state after `n` rounds of the search when quality `q` gives an
/// output of `size(q)` bytes (a round after the end changes nothing).
pub open spec fn probe_run(size: spec_fn(u8) -> nat, target: nat, n: nat) -> QualitySearch
    decreases n,
{
    if n == 0 {
        search_start()
    } else {
        let s = probe_run(size, target, (n - 1) as nat);
        if search_done(s) {
            s
        } else {
            search_step(s, size(search_mid(s)), target)
        }
    }
}

/// The largest number of open qualities after `n` encodings.
pub open spec fn open_cap(n: nat) -> int
    decreases n,
{
    if n == 0 { 100 } else { open_cap((n - 1) as nat) / 2 }
}

proof fn lemma_probe_inv(size: spec_fn(u8) -> nat, target: nat, n: nat)
    requires
        n <= 7,
    ensures
        ({
            let s = probe_run(size, target, n);
            &&& search_inv(s)
            &&& s.lo <= s.hi + 1
            &&& s.best == (if s.lo == 1 { None } else { Some((s.lo - 1) as u8) })
            &&& (s.lo > 1 ==> size((s.lo - 1) as u8) <= target)
            &&& (s.hi < 100 ==> size((s.hi + 1) as u8) > target)
            &&& s.probes <= n
            &&& s.hi + 1 - s.lo <= open_cap(s.probes as nat)
            &&& (s.probes < n ==> s.lo > s.hi)
        }),
    decreases n,
{
    if n > 0 {
        lemma_probe_inv(size, target, (n - 1) as nat);
        let s = probe_run(size, target, (n - 1) as nat);
        if !search_done(s) {
            let mid = search_mid(s);
            assert(s.lo <= mid <= s.hi);
            assert(s.hi - mid <= (s.hi + 1 - s.lo) / 2);
            assert(mid - s.lo <= (s.hi + 1 - s.lo) / 2);
        }
    }
}

/// Whether the output size grows with the quality.
pub open spec fn sizes_grow(size: spec_fn(u8) -> nat) -> bool {
    forall|a: u8, b: u8| #![trigger size(a), size(b)] 1 <= a <= b <= 100 ==> size(a) <= size(b)
}

/// The quality search finds the best quality it can see: the quality it
/// settles on fits the target and the next one up does not, and when none
/// fits, quality 1 did not. When the output size grows with the quality,
/// that is the highest quality from 1 to 100 that fits, found within its 7
/// encodings.
pub proof fn lemma_search_finds_highest(size: spec_fn(u8) -> nat, target: nat)
    ensures
        ({
            let s = probe_run(size, target, 7);
            &&& search_done(s)
            &&& (s.best matches Some(q) ==> 1 <= q <= 100 && size(q) <= target && (q == 100 || size((q + 1) as u8) > target))
            &&& (s.best is None ==> size(1) > target)
            &&& (sizes_grow(size) ==> {
                &&& (s.best matches Some(q) ==> forall|p: u8| q < p <= 100 ==> #[trigger] size(p) > target)
                &&& (s.best is None ==> forall|p: u8| 1 <= p <= 100 ==> #[trigger] size(p) > target)
            })
        }),
{
    lemma_probe_inv(size, target, 7);
    let s = probe_run(size, target, 7);
    assert(open_cap(7) == 0) by {
        reveal_with_fuel(open_cap, 8);
    }
    if s.probes == 7 {
        assert(s.hi + 1 - s.lo <= 0);
    }
    assert(s.lo == s.hi + 1);
    if sizes_grow(size) {
        if s.hi < 100 {
            assert forall|p: u8| s.hi < p <= 100 implies #[trigger] size(p) > target by {
                assert(size((s.hi + 1) as u8) <= size(p));
            }
        }
    }
}


// ---------------------------------------------------------------- decisions

/// The output format that "keep the input format" maps to.
pub open spec fn kind_output(kind: InputKind) -> Option<OutputFormat> {
    match kind {
        InputKind::Jpeg => Some(OutputFormat::Jpeg),
        InputKind::Png => Some(OutputFormat::Png),
        InputKind::Webp => Some(OutputFormat::Webp),
        InputKind::Avif => Some(OutputFormat::Avif),
        InputKind::Gif => Some(OutputFormat::Gif),
        InputKind::Other => None,
    }
}

/// The output format: the requested one, else the input's own, else PNG.
pub open spec fn output_format_spec(requested: Option<OutputFormat>, kind: InputKind) -> OutputFormat {
    match requested {
        Some(f) => f,
        None => match kind_output(kind) {
            Some(f) => f,
            None => OutputFormat::Png,
        },
    }
}

/// Chooses the output format for an input of `kind`.
pub fn output_format(requested: Option<OutputFormat>, kind: InputKind) -> (f: OutputFormat)
    ensures
        f == output_format_spec(requested, kind),
{
    match requested {
        Some(f) => f,
        None => match kind.default_output() {
            Some(f) => f,
            None => OutputFormat::Png,
        },
    }
}

/// The message for a target size asked of a format without quality search.
pub open spec fn target_format_message(format: OutputFormat) -> Seq<char> {
    "--target-size is only supported for lossy output (jpeg/webp/avif), not "@ + name_of(format)
}

/// The target-size rules before any decoding: a target needs a lossy
/// output format (else the file fails), and an input already under the
/// target is skipped unless `force`. `Ok(true)` means skip.
pub fn target_check(target: Option<u64>, force: bool, format: OutputFormat, in_bytes: u64) -> (r: Result<bool, ImzipError>)
    ensures
        (target is Some && !(format is Jpeg || format is Webp || format is Avif)) <==> r is Err,
        r matches Err(e) ==> (e matches ImzipError::Invalid(m) && m@ == target_format_message(format)),
        r matches Ok(skip) ==> skip == (target matches Some(t) && in_bytes <= t && !force),
{
    if target.is_some() && !format.supports_target_size() {
        let mut m = crate::text::string_from("--target-size is only supported for lossy output (jpeg/webp/avif), not ");
        m.append(format.name());
        return Err(ImzipError::invalid(m));
    }
    match target {
        Some(t) => Ok(in_bytes <= t && !force),
        None => Ok(false),
    }
}

/// The directory of `path` relative to the walked `root`, or empty.
pub open spec fn rel_dir(path: Seq<char>, root: Seq<char>) -> Seq<char> {
    match path_parent(path) {
        Some(p) => match path_strip_prefix(p, root) {
            Some(r) => r,
            None => ""@,
        },
        None => ""@,
    }
}

/// The default output name template.
pub open spec fn default_template() -> Seq<char> {
    "{name}_imzip.{ext}"@
}

/// Where the output of `entry` goes: with `in_place`, beside the input
/// with the format's extension; else the rendered name template, in the
/// output directory (mirroring the input's place under its walked root), or
/// beside the input.
pub open spec fn output_path_spec(entry: EntryView, st: SettingsView, format: OutputFormat, dims: (u32, u32)) -> Seq<char> {
    if st.in_place {
        path_with_extension(entry.path, ext_of(format))
    } else {
        let template = match st.name_template {
            Some(t) => t,
            None => default_template(),
        };
        let name = render_spec(
            template,
            stem_or_default(entry.path),
            format,
            dims.0,
            dims.1,
            entry.index,
            parent_name(entry.path),
        );
        let base = match st.output {
            Some(dir) => match entry.root {
                Some(root) => path_join(dir, rel_dir(entry.path, root)),
                None => dir,
            },
            None => match path_parent(entry.path) {
                Some(p) => p,
                None => "."@,
            },
        };
        path_join(base, name)
    }
}

/// Computes the final output path for an input.
pub fn output_path(entry: &InputEntry, settings: &Settings, format: OutputFormat, dims: (u32, u32)) -> (r: Result<String, ImzipError>)
    ensures
        r matches Ok(p) && p@ == output_path_spec(entry@, settings@, format, dims),
{
    if settings.in_place {
        let ext = format.extension();
        proof {
            reveal_strlit("jpg");
            reveal_strlit("png");
            reveal_strlit("webp");
            reveal_strlit("avif");
            reveal_strlit("gif");
            assert(forall|i: int| 0 <= i < ext@.len() ==> ext@[i] != '/' && ext@[i] != '\\');
        }
        return Ok(crate::paths::with_extension(entry.path.as_str(), ext));
    }
    let name = {
        let template: &str = match &settings.name_template {
            Some(t) => t.as_str(),
            None => "{name}_imzip.{ext}",
        };
        let ctx = NameCtx { input: entry.path.as_str(), format, width: dims.0, height: dims.1, index: entry.index };
        render_name_template(template, &ctx)
    };
    let base: String = match &settings.output {
        Some(dir) => match &entry.root {
            Some(root) => {
                let rel = match crate::paths::parent(entry.path.as_str()) {
                    Some(p) => match crate::paths::strip_prefix(p.as_str(), root.as_str()) {
                        Some(r) => r,
                        None => String::new(),
                    },
                    None => String::new(),
                };
                proof {
                    reveal_strlit("");
                    assert(""@ =~= Seq::<char>::empty());
                }
                assert(rel@ == rel_dir(entry.path@, root@));
                crate::paths::join(dir.as_str(), rel.as_str())
            },
            None => dir.clone(),
        },
        None => match crate::paths::parent(entry.path.as_str()) {
            Some(p) => p,
            None => crate::text::string_from("."),
        },
    };
    Ok(crate::paths::join(base.as_str(), name.as_str()))
}

/// The metadata taken from the input: none with `StripAll`, else what the
/// input's format carries (JPEG, PNG, WebP; none for other kinds).
pub open spec fn source_meta_spec(kind: InputKind, bytes: Seq<u8>, mode: MetaMode) -> MetaView {
    if mode is StripAll {
        empty_meta()
    } else {
        match kind {
            InputKind::Jpeg => jpeg_metadata(bytes),
            InputKind::Png => png_metadata(bytes),
            InputKind::Webp => webp_metadata(bytes),
            _ => empty_meta(),
        }
    }
}

/// Reads the metadata of the input that the output may carry.
pub fn source_metadata(kind: InputKind, bytes: &[u8], mode: MetaMode) -> (m: Metadata)
    ensures
        m@ == source_meta_spec(kind, bytes@, mode),
{
    if mode == MetaMode::StripAll {
        Metadata::default()
    } else {
        match kind {
            InputKind::Jpeg => metadata::jpeg::extract_jpeg(bytes),
            InputKind::Png => metadata::png::extract_png(bytes),
            InputKind::Webp => metadata::webp::extract_webp(bytes),
            _ => Metadata::default(),
        }
    }
}

/// The mode only filters what is written out, never what is read: with any
/// mode but `StripAll`, the metadata taken from the input is what
/// `extract_jpeg`, `extract_png` or `extract_webp` reads from its bytes, the
/// same as with `KeepAll`, and none for the other kinds.
pub proof fn lemma_source_reads_all(kind: InputKind, bytes: Seq<u8>, mode: MetaMode)
    requires
        !(mode is StripAll),
    ensures
        source_meta_spec(kind, bytes, mode) == source_meta_spec(kind, bytes, MetaMode::KeepAll),
        kind is Jpeg ==> source_meta_spec(kind, bytes, mode) == jpeg_metadata(bytes),
        kind is Png ==> source_meta_spec(kind, bytes, mode) == png_metadata(bytes),
        kind is Webp ==> source_meta_spec(kind, bytes, mode) == webp_metadata(bytes),
        !(kind is Jpeg || kind is Png || kind is Webp) ==> source_meta_spec(kind, bytes, mode) == empty_meta(),
        source_meta_spec(kind, bytes, MetaMode::StripAll) == empty_meta(),
{
}

/// A WebP input whose metadata chunks hold `m` (as `inject_webp` writes
/// them): with any mode but `StripAll`, the source metadata is `m`, so its
/// ICC profile passes the mode's filter both by default and with `KeepAll`.
pub proof fn lemma_source_webp(d: Seq<u8>, m: MetaView, w: u32, h: u32, mode: MetaMode)
    requires
        riff_chunks_spec(d) is Some,
        opt_len_ok(m.icc),
        opt_len_ok(m.exif),
        opt_len_ok(m.xmp),
        !(mode is StripAll),
    ensures
        source_meta_spec(InputKind::Webp, webp_injected(d, m, w, h), mode) == m,
        effective(source_meta_spec(InputKind::Webp, webp_injected(d, m, w, h), mode), mode).icc == m.icc,
{
    lemma_webp_roundtrip(d, m, w, h);
}

/// A JPEG input whose metadata segments hold `m` (as `inject_jpeg` writes
/// them into a JPEG without any): with any mode but `StripAll`, the source
/// metadata is `m`, and its ICC profile passes the mode's filter.
pub proof fn lemma_source_jpeg(d: Seq<u8>, m: MetaView, mode: MetaMode)
    requires
        d.len() >= 2,
        d[0] == 0xFF,
        d[1] == 0xD8,
        jpeg_scan(d.skip(2), empty_scan()) == empty_scan(),
        jpeg_fits(m),
        !(mode is StripAll),
    ensures
        source_meta_spec(InputKind::Jpeg, jpeg_injected(d, m), mode) == m,
        effective(source_meta_spec(InputKind::Jpeg, jpeg_injected(d, m), mode), mode).icc == m.icc,
{
    lemma_jpeg_roundtrip(d, m);
}

/// A PNG input whose metadata chunks hold `m` (as `inject_png` writes them,
/// with `comp` the compressed profile, into a PNG without any): with any mode
/// but `StripAll`, the source metadata is `m`, and its ICC profile passes the
/// mode's filter.
pub proof fn lemma_source_png(d: Seq<u8>, m: MetaView, comp: Seq<u8>, at: int, mode: MetaMode)
    requires
        d.len() >= 8,
        d.take(8) == png_sig(),
        png_find_idat(d.skip(8), 8) == Some(at),
        no_iend_before_idat(d.skip(8)),
        png_metadata(d) == empty_meta(),
        m.icc matches Some(c) ==> crate::zlib::zlib_inflate(comp) == Some(c),
        png_fits(m, comp),
        !(mode is StripAll),
    ensures
        source_meta_spec(InputKind::Png, png_injected(d, m, comp, at), mode) == m,
        effective(source_meta_spec(InputKind::Png, png_injected(d, m, comp, at), mode), mode).icc == m.icc,
{
    lemma_png_roundtrip(d, m, comp, at);
}

/// The "already optimal" rule: a pure recompress (same format as the input,
/// no resize) that came out larger than the input is not written, unless
/// `force`.
pub open spec fn already_optimal_spec(kind: InputKind, format: OutputFormat, resized: bool, force: bool, in_bytes: nat, out_bytes: nat) -> bool {
    kind_output(kind) == Some(format) && !resized && !force && out_bytes > in_bytes
}

pub fn already_optimal(kind: InputKind, format: OutputFormat, resized: bool, force: bool, in_bytes: u64, out_bytes: u64) -> (b: bool)
    ensures
        b == already_optimal_spec(kind, format, resized, force, in_bytes as nat, out_bytes as nat),
{
    let format_changed = match kind.default_output() {
        Some(f) => f != format,
        None => true,
    };
    let pure_recompress = !format_changed && !resized;
    pure_recompress && !force && out_bytes > in_bytes
}

/// The message for an output that exists already.
pub open spec fn exists_message(out: Seq<char>) -> Seq<char> {
    "output exists: "@ + out + " (use --force to overwrite)"@
}

/// An existing output is an error for that file (never a silent
/// overwrite), unless `force`, `--in-place`, or the output is the input
/// itself.
pub fn check_overwrite(out: &str, exists: bool, force: bool, in_place: bool, same_file: bool) -> (r: Result<(), ImzipError>)
    ensures
        r is Err <==> (exists && !force && !in_place && !same_file),
        r matches Err(e) ==> (e matches ImzipError::Invalid(m) && m@ == exists_message(out@)),
{
    if exists && !force && !in_place && !same_file {
        let mut m = crate::text::string_from("output exists: ");
        m.append(out);
        m.append(" (use --force to overwrite)");
        Err(ImzipError::invalid(m))
    } else {
        Ok(())
    }
}


// ---------------------------------------------------------------- notes

/// `W` and `H` as `WxH`.
pub open spec fn dims_text(d: (u32, u32)) -> Seq<char> {
    decimal(d.0 as nat) + "x"@ + decimal(d.1 as nat)
}

/// The items joined with `sep` between them.
pub open spec fn join_spec(items: Seq<Seq<char>>, sep: Seq<char>) -> Seq<char>
    decreases items.len(),
{
    if items.len() == 0 {
        Seq::empty()
    } else if items.len() == 1 {
        items[0]
    } else {
        join_spec(items.drop_last(), sep) + sep + items.last()
    }
}

pub open spec fn strs(v: Seq<String>) -> Seq<Seq<char>> {
    v.map_values(|s: String| s@)
}

/// The decisions every plan starts with: the output format, then the
/// resize (original and new size) or the size kept.
pub open spec fn base_decisions(format: OutputFormat, orig: (u32, u32), dims: (u32, u32), resized: bool) -> Seq<Seq<char>> {
    seq![
        "format "@ + name_of(format),
        if resized {
            "resize "@ + dims_text(orig) + " -> "@ + dims_text(dims)
        } else {
            "size "@ + dims_text(dims)
        },
    ]
}

/// The note of a dry run: the decisions, then the quality, or the target
/// the quality search would aim at (`label` is the target as printed).
pub open spec fn dry_run_note(base: Seq<Seq<char>>, target: Option<u64>, label: Seq<char>, quality: u8) -> Seq<char> {
    join_spec(
        base.push(
            match target {
                Some(_) => "quality auto-search <= "@ + label,
                None => "quality "@ + decimal(quality as nat),
            },
        ),
        ", "@,
    )
}

/// The note of a written file: the decisions, then the quality the search
/// settled on, and whether it missed the target.
pub open spec fn write_note(base: Seq<Seq<char>>, quality: Option<u8>, reached: bool) -> Seq<char> {
    join_spec(
        base + match quality {
            Some(q) => seq!["quality "@ + decimal(q as nat)] + if reached {
                Seq::<Seq<char>>::empty()
            } else {
                seq!["target size not reached (used lowest quality)"@]
            },
            None => Seq::<Seq<char>>::empty(),
        },
        ", "@,
    )
}

/// Joins strings with `", "` between them.
pub fn join_notes(items: &Vec<String>) -> (r: String)
    ensures
        r@ == join_spec(strs(items@), ", "@),
{
    let mut out = String::new();
    let mut i: usize = 0;
    proof {
        reveal_strlit("");
        assert(strs(items@).take(0) =~= Seq::<Seq<char>>::empty());
    }
    while i < items.len()
        invariant
            i <= items.len(),
            out@ == join_spec(strs(items@).take(i as int), ", "@),
        decreases items.len() - i,
    {
        let ghost before = out@;
        if i > 0 {
            out.append(", ");
        }
        out.append(items[i].as_str());
        proof {
            let t = strs(items@).take(i + 1);
            assert(t.drop_last() =~= strs(items@).take(i as int));
            assert(t.last() == items@[i as int]@);
            if i == 0 {
                assert(before =~= Seq::<char>::empty());
                assert(out@ =~= items@[0]@);
            }
        }
        i = i + 1;
    }
    assert(strs(items@).take(items.len() as int) =~= strs(items@));
    out
}

fn decimal_string(n: u64) -> (s: String)
    ensures
        s@ == decimal(n as nat),
{
    string_of_chars(&decimal_chars(n))
}

fn dims_string(d: (u32, u32)) -> (s: String)
    ensures
        s@ == dims_text(d),
{
    let mut s = decimal_string(d.0 as u64);
    s.append("x");
    s.append(decimal_string(d.1 as u64).as_str());
    s
}

fn decisions_of(format: OutputFormat, orig: (u32, u32), dims: (u32, u32), resized: bool) -> (v: Vec<String>)
    ensures
        strs(v@) == base_decisions(format, orig, dims, resized),
{
    let mut v: Vec<String> = Vec::new();
    let mut f = crate::text::string_from("format ");
    f.append(format.name());
    v.push(f);
    let d = if resized {
        let mut m = crate::text::string_from("resize ");
        m.append(dims_string(orig).as_str());
        m.append(" -> ");
        m.append(dims_string(dims).as_str());
        m
    } else {
        let mut m = crate::text::string_from("size ");
        m.append(dims_string(dims).as_str());
        m
    };
    v.push(d);
    assert(strs(v@) =~= base_decisions(format, orig, dims, resized));
    v
}

/// The encoder settings of the resolved settings.
pub open spec fn opts_spec(st: Settings) -> EncoderOpts {
    EncoderOpts {
        quality: st.quality,
        progressive: st.progressive,
        chroma_subsampling: st.chroma_subsampling,
        png_compression: st.png_compression,
        png_colors: st.png_colors,
        webp_lossless: st.webp_lossless,
        avif_speed: st.avif_speed,
        background: st.background,
    }
}

pub fn encoder_opts(settings: &Settings) -> (o: EncoderOpts)
    ensures
        o == opts_spec(*settings),
{
    EncoderOpts {
        quality: settings.quality,
        progressive: settings.progressive,
        chroma_subsampling: settings.chroma_subsampling,
        png_compression: settings.png_compression,
        png_colors: settings.png_colors,
        webp_lossless: settings.webp_lossless,
        avif_speed: settings.avif_speed,
        background: settings.background,
    }
}

/// What the quality search needs of the encoder's input.
pub open spec fn search_encodable(format: OutputFormat, img: RgbaImage, opts: EncoderOpts, target: Option<u64>) -> bool {
    match target {
        None => encodable(format, img, opts),
        Some(_) => encodable(format, img, EncoderOpts { quality: 1, ..opts }),
    }
}

/// The encoding that processing puts metadata into: the encoder's outcome
/// on `img` with `o`, or, with a target size, its outcome at the quality
/// the search settles on (AVIF with `threads` threads).
pub open spec fn chosen(format: OutputFormat, img: RgbaImage, o: EncoderOpts, target: Option<u64>, threads: usize) -> Result<Seq<u8>, Seq<char>> {
    match target {
        None => encoders::encode_out(format, img, o, threads),
        Some(t) => enc_at(format, img, o, threads, search_pick(enc_len(format, img, o, threads), t as nat).0),
    }
}

/// Whether the encoder of `format` succeeds on `img` with `o` (at every
/// quality when a target size is searched for), and metadata goes into
/// each output it gives.
pub open spec fn encodes_and_injects(format: OutputFormat, img: RgbaImage, o: EncoderOpts, target: Option<u64>, m: MetaView, mode: MetaMode, threads: usize) -> bool {
    let dims = (img.width, img.height);
    match target {
        None => encoders::encode_out(format, img, o, threads) matches Ok(b) && inject_spec(format, b, m, mode, dims) is Some,
        Some(_) => forall|q: u8| 1 <= q <= 100 ==> (#[trigger] enc_at(format, img, o, threads, q) matches Ok(b)
            && inject_spec(format, b, m, mode, dims) is Some),
    }
}

/// What encoding and putting in metadata `m` with `mode` decides, AVIF
/// encoded with `threads` threads: success when the encoder succeeds and
/// the metadata goes in; the bytes of [`chosen`] with the metadata put in;
/// with a target, the quality and whether it was reached as the search
/// settles them.
pub open spec fn processed(
    r: Result<Outcome, ImzipError>,
    format: OutputFormat,
    img: RgbaImage,
    o: EncoderOpts,
    target: Option<u64>,
    m: MetaView,
    mode: MetaMode,
    threads: usize,
) -> bool {
    let dims = (img.width, img.height);
    &&& encodes_and_injects(format, img, o, target, m, mode, threads) ==> r is Ok
    &&& (r matches Ok(Outcome::Write { bytes, quality, target_reached, .. }) ==> {
        &&& chosen(format, img, o, target, threads) matches Ok(enc)
        &&& inject_spec(format, enc, m, mode, dims) == Some(bytes@)
        &&& (target matches Some(t) ==> {
            let pick = search_pick(enc_len(format, img, o, threads), t as nat);
            &&& target_reached == pick.1
            &&& quality == (if pick.1 { Some(pick.0) } else { Some(1u8) })
        })
    })
    &&& (r matches Ok(Outcome::AlreadyOptimal { out_bytes, .. }) ==> {
        &&& chosen(format, img, o, target, threads) matches Ok(enc)
        &&& inject_spec(format, enc, m, mode, dims) matches Some(f)
        &&& f.len() == out_bytes
    })
}

/// What processing a decoded input decides.
pub enum Outcome {
    /// `--dry-run`: the output path and the plan; nothing is encoded.
    DryRun { output: String, note: String },
    /// A pure recompress came out larger than the input: nothing to write.
    AlreadyOptimal { output: String, out_bytes: u64 },
    /// The bytes to write to `output`, with the quality the search settled
    /// on, whether it reached the target, and the note.
    Write { output: String, bytes: Vec<u8>, quality: Option<u8>, target_reached: bool, note: String },
}

/// Plans, encodes and re-injects metadata for a decoded (and resized)
/// input: `img` is the image to encode, `orig` its size before resizing,
/// `in_bytes` the input file, `target_label` the target size as printed.
pub fn process_decoded(
    entry: &InputEntry,
    settings: &Settings,
    kind: InputKind,
    format: OutputFormat,
    in_bytes: &[u8],
    img: &RgbaImage,
    orig: (u32, u32),
    resized: bool,
    target_label: &str,
) -> (r: Result<Outcome, ImzipError>)
    requires
        img.wf(),
        !settings.dry_run ==> search_encodable(format, *img, opts_spec(*settings), settings.target_size),
    ensures
        ({
            let dims = (img.width, img.height);
            let out = output_path_spec(entry@, settings@, format, dims);
            let base = base_decisions(format, orig, dims, resized);
            let mode = settings.meta_mode;
            &&& settings.dry_run ==> (r matches Ok(Outcome::DryRun { output, note }) && output@ == out
                && note@ == dry_run_note(base, settings.target_size, target_label@, settings.quality))
            &&& !settings.dry_run ==> match r {
                Ok(Outcome::DryRun { .. }) => false,
                Ok(Outcome::AlreadyOptimal { output, out_bytes }) => output@ == out
                    && already_optimal_spec(kind, format, resized, settings.force, in_bytes@.len(), out_bytes as nat),
                Ok(Outcome::Write { output, bytes, quality, target_reached, note }) => {
                    &&& output@ == out
                    &&& !already_optimal_spec(kind, format, resized, settings.force, in_bytes@.len(), bytes@.len())
                    &&& exists|enc: Seq<u8>| inject_spec(format, enc, source_meta_spec(kind, in_bytes@, mode), mode, dims)
                        == Some(bytes@)
                    &&& note@ == write_note(base, quality, target_reached)
                    &&& (settings.target_size is None ==> quality is None && target_reached)
                    &&& (settings.target_size is Some ==> quality is Some && (!target_reached ==> quality == Some(1u8)))
                },
                Err(e) => encode_error_of(e, format) || e is Metadata,
            }
        }),
        !settings.dry_run ==> exists|n: usize| n >= 1 && #[trigger] processed(
            r,
            format,
            *img,
            opts_spec(*settings),
            settings.target_size,
            source_meta_spec(kind, in_bytes@, settings.meta_mode),
            settings.meta_mode,
            n,
        ),
{
    let dims = (img.width, img.height);
    let out_path = match output_path(entry, settings, format, dims) {
        Ok(p) => p,
        Err(e) => return Err(e),
    };
    let mut decisions = decisions_of(format, orig, dims, resized);
    if settings.dry_run {
        let item = match settings.target_size {
            Some(_) => {
                let mut m = crate::text::string_from("quality auto-search <= ");
                m.append(target_label);
                m
            },
            None => {
                let mut m = crate::text::string_from("quality ");
                m.append(decimal_string(settings.quality as u64).as_str());
                m
            },
        };
        let ghost before = decisions@;
        decisions.push(item);
        assert(strs(decisions@) =~= strs(before).push(item@));
        return Ok(Outcome::DryRun { output: out_path, note: join_notes(&decisions) });
    }
    let opts = encoder_opts(settings);
    let threads = encoders::thread_count();
    let ghost o = opts_spec(*settings);
    let ghost mv = source_meta_spec(kind, in_bytes@, settings.meta_mode);
    let (encoded, quality_used, reached) = match search_threads(format, img, &opts, settings.target_size, threads) {
        Ok(x) => x,
        Err(e) => {
            let r = Err(e);
            assert(processed(r, format, *img, o, settings.target_size, mv, settings.meta_mode, threads));
            return r;
        },
    };
    let ghost enc = encoded@;
    let meta = source_metadata(kind, in_bytes, settings.meta_mode);
    let final_bytes = match metadata::inject(format, encoded, &meta, settings.meta_mode, dims) {
        Ok(b) => b,
        Err(e) => {
            let r = Err(e);
            assert(processed(r, format, *img, o, settings.target_size, mv, settings.meta_mode, threads));
            return r;
        },
    };
    assert(inject_spec(format, enc, source_meta_spec(kind, in_bytes@, settings.meta_mode), settings.meta_mode, dims) == Some(final_bytes@));
    let out_bytes = final_bytes.len() as u64;
    if already_optimal(kind, format, resized, settings.force, in_bytes.len() as u64, out_bytes) {
        let r = Ok(Outcome::AlreadyOptimal { output: out_path, out_bytes });
        assert(processed(r, format, *img, o, settings.target_size, mv, settings.meta_mode, threads));
        return r;
    }
    if let Some(q) = quality_used {
        let mut m = crate::text::string_from("quality ");
        m.append(decimal_string(q as u64).as_str());
        decisions.push(m);
        if !reached {
            decisions.push(crate::text::string_from("target size not reached (used lowest quality)"));
        }
    }
    assert(strs(decisions@) =~= base_decisions(format, orig, dims, resized) + match quality_used {
        Some(q) => seq!["quality "@ + decimal(q as nat)] + if reached {
            Seq::<Seq<char>>::empty()
        } else {
            seq!["target size not reached (used lowest quality)"@]
        },
        None => Seq::<Seq<char>>::empty(),
    });
    let r = Ok(Outcome::Write { output: out_path, bytes: final_bytes, quality: quality_used, target_reached: reached, note: join_notes(&decisions) });
    assert(processed(r, format, *img, o, settings.target_size, mv, settings.meta_mode, threads));
    r
}

// ---------------------------------------------------------------- pixels

/// The image that the `image` crate decodes from a file's bytes, as its
/// width, height and RGBA8 pixels, or `None` where decoding fails. It comes
/// from the file's contents alone: the decoders run in one thread, and the
/// JPEG decoder's SIMD paths give the same pixels as its scalar code.
pub uninterp spec fn decoded_image(bytes: Seq<u8>) -> Option<(u32, u32, Seq<u8>)>;

/// Decodes an image file with the `image` crate: `ImageReader::new` over
/// the bytes, `with_guessed_format`, `decode`, then `to_rgba8`; the error as
/// its text. The outcome is named [`decoded_image`]; the decoded image is an
/// RGBA buffer of its width and height.
#[verifier::external_body]
fn image_decode(bytes: &[u8]) -> (r: Result<RgbaImage, String>)
    ensures
        r is Ok <==> decoded_image(bytes@) is Some,
        r matches Ok(img) ==> img.wf() && decoded_image(bytes@) == Some((img.width, img.height, img.pixels@)),
{
    let reader = image::ImageReader::new(std::io::Cursor::new(bytes)).with_guessed_format().map_err(|e| e.to_string())?;
    let img = reader.decode().map_err(|e| e.to_string())?.to_rgba8();
    Ok(RgbaImage { width: img.width(), height: img.height(), pixels: img.into_raw() })
}

/// Decodes an input file into RGBA pixels.
pub fn decode(bytes: &[u8]) -> (r: Result<RgbaImage, ImzipError>)
    ensures
        r is Ok <==> decoded_image(bytes@) is Some,
        r matches Ok(img) ==> img.wf() && decoded_image(bytes@) == Some((img.width, img.height, img.pixels@)),
        r matches Err(e) ==> e is Decode,
{
    match image_decode(bytes) {
        Ok(img) => Ok(img),
        Err(m) => Err(ImzipError::decode(m)),
    }
}

/// `image::imageops::resize` of the RGBA buffer to `width` x `height` with
/// the filter of the same name. The result has exactly that size. Its
/// pixels are not stated: the filters compute with `f32`, and the Lanczos
/// kernel calls `f32::sin`, whose precision std leaves open across
/// platforms and versions.
#[verifier::external_body]
fn resize_pixels(img: &RgbaImage, width: u32, height: u32, filter: Filter) -> (r: RgbaImage)
    requires
        img.wf(),
    ensures
        r.width == width,
        r.height == height,
        r.wf(),
{
    let filter = match filter {
        Filter::Nearest => image::imageops::FilterType::Nearest,
        Filter::Triangle => image::imageops::FilterType::Triangle,
        Filter::CatmullRom => image::imageops::FilterType::CatmullRom,
        Filter::Lanczos3 => image::imageops::FilterType::Lanczos3,
    };
    let src = image::ImageBuffer::<image::Rgba<u8>, &[u8]>::from_raw(img.width, img.height, img.pixels.as_slice()).expect("well-formed buffer");
    let out = image::imageops::resize(&src, width, height, filter);
    RgbaImage { width: out.width(), height: out.height(), pixels: out.into_raw() }
}

/// The image to encode: resized to `target` with `filter` when a resize
/// was decided, else the decoded image itself.
pub fn apply_resize(img: RgbaImage, target: Option<(u32, u32)>, filter: Filter) -> (r: RgbaImage)
    requires
        img.wf(),
    ensures
        r.wf(),
        target matches Some((w, h)) ==> r.width == w && r.height == h,
        target is None ==> r == img,
{
    match target {
        Some((w, h)) => resize_pixels(&img, w, h, filter),
        None => img,
    }
}

/// Whether the encoders accept the image with these settings (else the
/// codec would stop on it).
pub fn can_encode(format: OutputFormat, img: &RgbaImage, opts: &EncoderOpts, target: Option<u64>) -> (b: bool)
    requires
        img.wf(),
    ensures
        b == search_encodable(format, *img, *opts, target),
{
    let q: u8 = match target {
        Some(_) => 1,
        None => opts.quality,
    };
    let w = img.width;
    let h = img.height;
    match format {
        OutputFormat::Jpeg => 1 <= w && w <= 65500 && 1 <= h && h <= 65500,
        OutputFormat::Webp => if opts.webp_lossless {
            1 <= w && w <= 16383 && 1 <= h && h <= 16383
        } else {
            w <= 0x1fff_ffff
        },
        OutputFormat::Avif => w >= 1 && q >= 1 && q <= 100 && 1 <= opts.avif_speed && opts.avif_speed <= 10,
        _ => true,
    }
}

} // verus!
